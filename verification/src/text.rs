//! Character-sequence helpers shared by the text-processing modules.
//!
//! Everything here works on `Seq<char>` in specifications and on `Vec<char>`
//! / `&[char]` in executable code. The spec functions state the documented
//! behaviour of the corresponding `str` operations (`trim`, `lines`,
//! `split`, `find`, `replace`, ...).

use vstd::prelude::*;

verus! {

broadcast use vstd::string::group_string_axioms;

// ---------------------------------------------------------------------------
// character classes
// ---------------------------------------------------------------------------

/// `char::is_whitespace`: the Unicode `White_Space` property.
pub open spec fn is_ws(c: char) -> bool {
    ||| ('\u{9}' <= c && c <= '\u{d}')
    ||| c == ' '
    ||| c == '\u{85}'
    ||| c == '\u{a0}'
    ||| c == '\u{1680}'
    ||| ('\u{2000}' <= c && c <= '\u{200a}')
    ||| c == '\u{2028}'
    ||| c == '\u{2029}'
    ||| c == '\u{202f}'
    ||| c == '\u{205f}'
    ||| c == '\u{3000}'
}

/// `char::is_ascii_whitespace`: space, tab, line feed, form feed, carriage return.
pub open spec fn is_ascii_ws(c: char) -> bool {
    c == ' ' || c == '\t' || c == '\n' || c == '\u{c}' || c == '\r'
}

/// `char::is_ascii_digit`.
pub open spec fn is_digit(c: char) -> bool {
    '0' <= c && c <= '9'
}

/// `char::is_ascii_uppercase`.
pub open spec fn is_upper(c: char) -> bool {
    'A' <= c && c <= 'Z'
}

/// `char::is_ascii_lowercase`.
pub open spec fn is_lower(c: char) -> bool {
    'a' <= c && c <= 'z'
}

/// `char::is_ascii_alphabetic`.
pub open spec fn is_alpha(c: char) -> bool {
    is_upper(c) || is_lower(c)
}

/// `char::is_ascii_alphanumeric`.
pub open spec fn is_alnum(c: char) -> bool {
    is_alpha(c) || is_digit(c)
}

/// `char::to_ascii_lowercase`.
pub open spec fn lower(c: char) -> char {
    if is_upper(c) {
        ((c as int) + 32) as char
    } else {
        c
    }
}

/// `char::to_ascii_uppercase`.
pub open spec fn upper(c: char) -> char {
    if is_lower(c) {
        ((c as int) - 32) as char
    } else {
        c
    }
}

/// `str::to_ascii_lowercase`.
pub open spec fn lower_seq(s: Seq<char>) -> Seq<char> {
    s.map_values(|c: char| lower(c))
}

/// Exec `char::is_whitespace`.
pub fn is_ws_char(c: char) -> (b: bool)
    ensures
        b == is_ws(c),
{
    ('\u{9}' <= c && c <= '\u{d}') || c == ' ' || c == '\u{85}' || c == '\u{a0}' || c
        == '\u{1680}' || ('\u{2000}' <= c && c <= '\u{200a}') || c == '\u{2028}' || c
        == '\u{2029}' || c == '\u{202f}' || c == '\u{205f}' || c == '\u{3000}'
}

/// Exec `char::is_ascii_whitespace`.
pub fn is_ascii_ws_char(c: char) -> (b: bool)
    ensures
        b == is_ascii_ws(c),
{
    c == ' ' || c == '\t' || c == '\n' || c == '\u{c}' || c == '\r'
}

/// Exec `char::is_ascii_digit`.
pub fn is_digit_char(c: char) -> (b: bool)
    ensures
        b == is_digit(c),
{
    '0' <= c && c <= '9'
}

/// Exec `char::is_ascii_alphabetic`.
pub fn is_alpha_char(c: char) -> (b: bool)
    ensures
        b == is_alpha(c),
{
    ('A' <= c && c <= 'Z') || ('a' <= c && c <= 'z')
}

/// Exec `char::is_ascii_alphanumeric`.
pub fn is_alnum_char(c: char) -> (b: bool)
    ensures
        b == is_alnum(c),
{
    is_alpha_char(c) || is_digit_char(c)
}

/// Exec `char::to_ascii_lowercase`.
pub fn lower_char(c: char) -> (r: char)
    ensures
        r == lower(c),
{
    if 'A' <= c && c <= 'Z' {
        ((c as u32) + 32) as u8 as char
    } else {
        c
    }
}

/// Exec `char::to_ascii_uppercase`.
pub fn upper_char(c: char) -> (r: char)
    ensures
        r == upper(c),
{
    if 'a' <= c && c <= 'z' {
        ((c as u32) - 32) as u8 as char
    } else {
        c
    }
}


// ---------------------------------------------------------------------------
// conversion between `str`/`String` and character vectors
// ---------------------------------------------------------------------------

/// The characters of `s`, in order.
pub fn chars_of(s: &str) -> (v: Vec<char>)
    ensures
        v@ == s@,
{
    let mut v: Vec<char> = Vec::new();
    for c in it: s.chars()
        invariant
            v@ == it.seq().take(it.index() as int),
            it.seq() == s@,
    {
        v.push(c);
    }
    v
}

/// Trusted: collecting `char`s into a `String` (`FromIterator<char>`) gives a
/// string whose characters are exactly `v`, in order.
#[verifier::external_body]
pub(crate) fn string_of(v: &[char]) -> (s: String)
    ensures
        s@ == v@,
{
    v.iter().collect()
}

/// Copy `v[lo..hi]` into a new vector.
pub fn slice_chars(v: &[char], lo: usize, hi: usize) -> (r: Vec<char>)
    requires
        lo <= hi <= v@.len(),
    ensures
        r@ == v@.subrange(lo as int, hi as int),
{
    let mut r: Vec<char> = Vec::new();
    let mut i = lo;
    while i < hi
        invariant
            lo <= i <= hi <= v@.len(),
            r@ == v@.subrange(lo as int, i as int),
        decreases hi - i,
    {
        r.push(v[i]);
        i = i + 1;
    }
    r
}

/// Append all of `s` to `out`.
pub fn push_all(out: &mut Vec<char>, s: &[char])
    ensures
        final(out)@ == old(out)@ + s@,
{
    let mut i: usize = 0;
    while i < s.len()
        invariant
            i <= s@.len(),
            out@ == old(out)@ + s@.take(i as int),
        decreases s.len() - i,
    {
        out.push(s[i]);
        i = i + 1;
        assert(s@.take(i as int) == s@.take(i - 1).push(s@[i - 1]));
    }
    assert(s@.take(s@.len() as int) == s@);
}

/// Append the characters of `s` to `out`.
pub fn push_str(out: &mut Vec<char>, s: &str)
    ensures
        final(out)@ == old(out)@ + s@,
{
    let v = chars_of(s);
    push_all(out, &v);
}

/// Whether two character slices are equal.
pub fn eq_chars(a: &[char], b: &[char]) -> (r: bool)
    ensures
        r == (a@ == b@),
{
    if a.len() != b.len() {
        return false;
    }
    let mut i: usize = 0;
    while i < a.len()
        invariant
            i <= a@.len(),
            a@.len() == b@.len(),
            forall|j: int| 0 <= j < i ==> a@[j] == b@[j],
        decreases a.len() - i,
    {
        if a[i] != b[i] {
            return false;
        }
        i = i + 1;
    }
    assert(a@ =~= b@);
    true
}

/// Whether `a` equals the characters of `s`.
pub fn eq_str(a: &[char], s: &str) -> (r: bool)
    ensures
        r == (a@ == s@),
{
    let v = chars_of(s);
    eq_chars(a, &v)
}

// ---------------------------------------------------------------------------
// searching
// ---------------------------------------------------------------------------

/// `pat` occurs in `s` at index `i`.
pub open spec fn matches_at(s: Seq<char>, pat: Seq<char>, i: int) -> bool {
    0 <= i && i + pat.len() <= s.len() && s.subrange(i, i + pat.len()) == pat
}

/// First occurrence of `pat` in `s` at or after `i` (`str::find` from `i`).
pub open spec fn find_from(s: Seq<char>, pat: Seq<char>, i: int) -> Option<int>
    decreases s.len() + 1 - i,
{
    if i < 0 || i + pat.len() > s.len() {
        None
    } else if s.subrange(i, i + pat.len()) == pat {
        Some(i)
    } else {
        find_from(s, pat, i + 1)
    }
}

/// First occurrence of `pat` in `s` (`str::find`).
pub open spec fn find(s: Seq<char>, pat: Seq<char>) -> Option<int> {
    find_from(s, pat, 0)
}

/// `str::contains` with a string pattern.
pub open spec fn contains(s: Seq<char>, pat: Seq<char>) -> bool {
    exists|i: int| matches_at(s, pat, i)
}

/// What `find_from` returns: the first match at or after `i`.
pub proof fn lemma_find_from(s: Seq<char>, pat: Seq<char>, i: int)
    requires
        0 <= i,
    ensures
        match find_from(s, pat, i) {
            Some(k) => i <= k && matches_at(s, pat, k) && forall|j: int|
                i <= j < k ==> !matches_at(s, pat, j),
            None => forall|j: int| i <= j ==> !matches_at(s, pat, j),
        },
    decreases s.len() + 1 - i,
{
    if i + pat.len() > s.len() {
    } else if s.subrange(i, i + pat.len()) == pat {
    } else {
        lemma_find_from(s, pat, i + 1);
    }
}

/// `find` is `Some` exactly when the pattern occurs.
pub proof fn lemma_find_contains(s: Seq<char>, pat: Seq<char>)
    ensures
        find(s, pat) is Some <==> contains(s, pat),
        find(s, pat) matches Some(k) ==> matches_at(s, pat, k),
{
    lemma_find_from(s, pat, 0);
}

/// Exec `find` starting at `from`.
pub fn find_at(s: &[char], pat: &[char], from: usize) -> (r: Option<usize>)
    ensures
        r == (match find_from(s@, pat@, from as int) {
            Some(k) => Some(k as usize),
            None => None::<usize>,
        }),
{
    let n = s.len();
    let m = pat.len();
    if m > n {
        return None;
    }
    let mut i = from;
    while i <= n - m
        invariant
            from <= i,
            m <= n,
            n == s@.len(),
            m == pat@.len(),
            find_from(s@, pat@, from as int) == find_from(s@, pat@, i as int),
        decreases n - i,
    {
        let mut j: usize = 0;
        let mut ok = true;
        while j < m
            invariant
                j <= m,
                i + m <= n,
                n == s@.len(),
                m == pat@.len(),
                ok == (forall|k: int| 0 <= k < j ==> s@[i + k] == pat@[k]),
            decreases m - j,
        {
            if s[i + j] != pat[j] {
                ok = false;
            }
            j = j + 1;
        }
        if ok {
            assert(s@.subrange(i as int, i + m) =~= pat@);
            return Some(i);
        }
        assert(s@.subrange(i as int, i + m) != pat@) by {
            let k = choose|k: int| 0 <= k < m && s@[i + k] != pat@[k];
            assert(s@.subrange(i as int, i + m)[k] == s@[i + k]);
        }
        i = i + 1;
    }
    None
}

/// Exec `contains`.
pub fn contains_chars(s: &[char], pat: &[char]) -> (r: bool)
    ensures
        r == contains(s@, pat@),
{
    proof {
        lemma_find_contains(s@, pat@);
    }
    find_at(s, pat, 0).is_some()
}

/// Exec `contains` with a `str` pattern.
pub fn contains_str(s: &[char], pat: &str) -> (r: bool)
    ensures
        r == contains(s@, pat@),
{
    let p = chars_of(pat);
    contains_chars(s, &p)
}

/// First index of character `c` in `s` at or after `i`.
pub open spec fn char_from(s: Seq<char>, c: char, i: int) -> Option<int>
    decreases s.len() - i,
{
    if i < 0 || i >= s.len() {
        None
    } else if s[i] == c {
        Some(i)
    } else {
        char_from(s, c, i + 1)
    }
}

/// What `char_from` returns: the first occurrence at or after `i`.
pub proof fn lemma_char_from(s: Seq<char>, c: char, i: int)
    requires
        0 <= i,
    ensures
        match char_from(s, c, i) {
            Some(k) => i <= k < s.len() && s[k] == c && forall|j: int| i <= j < k ==> s[j] != c,
            None => forall|j: int| i <= j < s.len() ==> s[j] != c,
        },
    decreases s.len() - i,
{
    if i < s.len() && s[i] != c {
        lemma_char_from(s, c, i + 1);
    }
}

/// Exec `char_from`.
pub fn find_char(s: &[char], c: char, from: usize) -> (r: Option<usize>)
    ensures
        r == (match char_from(s@, c, from as int) {
            Some(k) => Some(k as usize),
            None => None::<usize>,
        }),
{
    let mut i = from;
    while i < s.len()
        invariant
            from <= i,
            char_from(s@, c, from as int) == char_from(s@, c, i as int),
        decreases s.len() - i,
    {
        if s[i] == c {
            return Some(i);
        }
        i = i + 1;
    }
    None
}

/// Exec `find_from` with a string pattern.
pub fn find_str(s: &[char], pat: &str, from: usize) -> (r: Option<usize>)
    ensures
        r == (match find_from(s@, pat@, from as int) {
            Some(k) => Some(k as usize),
            None => None::<usize>,
        }),
{
    let p = chars_of(pat);
    find_at(s, &p, from)
}

/// Whether `c` occurs in `s`.
pub fn has_char(s: &[char], c: char) -> (r: bool)
    ensures
        r == s@.contains(c),
{
    let mut i: usize = 0;
    while i < s.len()
        invariant
            i <= s@.len(),
            forall|j: int| 0 <= j < i ==> s@[j] != c,
        decreases s.len() - i,
    {
        if s[i] == c {
            return true;
        }
        i = i + 1;
    }
    false
}

/// `str::starts_with`.
pub open spec fn starts_with(s: Seq<char>, p: Seq<char>) -> bool {
    p.len() <= s.len() && s.take(p.len() as int) == p
}

/// `str::ends_with`.
pub open spec fn ends_with(s: Seq<char>, p: Seq<char>) -> bool {
    p.len() <= s.len() && s.skip(s.len() - p.len()) == p
}

/// Exec `starts_with`.
pub fn starts_with_str(s: &[char], p: &str) -> (r: bool)
    ensures
        r == starts_with(s@, p@),
{
    let pv = chars_of(p);
    if pv.len() > s.len() {
        return false;
    }
    let mut i: usize = 0;
    while i < pv.len()
        invariant
            i <= pv@.len() <= s@.len(),
            pv@ == p@,
            forall|j: int| 0 <= j < i ==> s@[j] == pv@[j],
        decreases pv.len() - i,
    {
        if s[i] != pv[i] {
            assert(s@.take(pv@.len() as int)[i as int] != pv@[i as int]);
            assert(s@.take(pv@.len() as int) != pv@);
            return false;
        }
        i = i + 1;
    }
    assert(s@.take(pv@.len() as int) =~= pv@);
    true
}

/// Exec `ends_with`.
pub fn ends_with_str(s: &[char], p: &str) -> (r: bool)
    ensures
        r == ends_with(s@, p@),
{
    let pv = chars_of(p);
    if pv.len() > s.len() {
        return false;
    }
    let off = s.len() - pv.len();
    let mut i: usize = 0;
    while i < pv.len()
        invariant
            i <= pv@.len() <= s@.len(),
            off + pv@.len() == s@.len(),
            off + pv.len() == s.len(),
            pv@ == p@,
            forall|j: int| 0 <= j < i ==> s@[off + j] == pv@[j],
        decreases pv.len() - i,
    {
        if s[off + i] != pv[i] {
            assert(s@.skip(off as int)[i as int] != pv@[i as int]);
            assert(s@.skip(off as int) != pv@);
            return false;
        }
        i = i + 1;
    }
    assert(s@.skip(off as int) =~= pv@);
    true
}

// ---------------------------------------------------------------------------
// trimming
// ---------------------------------------------------------------------------

/// `str::trim_start`.
pub open spec fn trim_start(s: Seq<char>) -> Seq<char>
    decreases s.len(),
{
    if s.len() > 0 && is_ws(s[0]) {
        trim_start(s.drop_first())
    } else {
        s
    }
}

/// `str::trim_end`.
pub open spec fn trim_end(s: Seq<char>) -> Seq<char>
    decreases s.len(),
{
    if s.len() > 0 && is_ws(s.last()) {
        trim_end(s.drop_last())
    } else {
        s
    }
}

/// `str::trim`.
pub open spec fn trim(s: Seq<char>) -> Seq<char> {
    trim_end(trim_start(s))
}

/// `trim_start` drops a prefix.
pub proof fn lemma_trim_start_suffix(s: Seq<char>)
    ensures
        trim_start(s).len() <= s.len(),
        trim_start(s) == s.skip(s.len() - trim_start(s).len()),
    decreases s.len(),
{
    if s.len() > 0 && is_ws(s[0]) {
        lemma_trim_start_suffix(s.drop_first());
        assert(s.drop_first().skip(s.drop_first().len() - trim_start(s).len()) =~= s.skip(
            s.len() - trim_start(s).len(),
        ));
    } else {
        assert(s.skip(0) =~= s);
    }
}

/// `trim_end` drops a suffix.
pub proof fn lemma_trim_end_prefix(s: Seq<char>)
    ensures
        trim_end(s).len() <= s.len(),
        trim_end(s) == s.take(trim_end(s).len() as int),
    decreases s.len(),
{
    if s.len() > 0 && is_ws(s.last()) {
        lemma_trim_end_prefix(s.drop_last());
        assert(s.drop_last().take(trim_end(s).len() as int) =~= s.take(trim_end(s).len() as int));
    } else {
        assert(s.take(s.len() as int) =~= s);
    }
}

/// `trim` keeps a contiguous piece of `s`.
pub proof fn lemma_trim_sub(s: Seq<char>) -> (a: int)
    ensures
        0 <= a,
        a + trim(s).len() <= s.len(),
        trim(s) == s.subrange(a, a + trim(s).len()),
{
    lemma_trim_start_suffix(s);
    let u = trim_start(s);
    lemma_trim_end_prefix(u);
    let a = s.len() - u.len();
    assert(trim(s) =~= s.subrange(a, a + trim(s).len()));
    a
}

/// A property of every character of `s` holds of every character of `trim(s)`.
pub proof fn lemma_trim_keeps(s: Seq<char>, p: spec_fn(char) -> bool)
    requires
        forall|i: int| 0 <= i < s.len() ==> p(#[trigger] s[i]),
    ensures
        forall|i: int| 0 <= i < trim(s).len() ==> p(#[trigger] trim(s)[i]),
{
    let a = lemma_trim_sub(s);
    assert forall|i: int| 0 <= i < trim(s).len() implies p(#[trigger] trim(s)[i]) by {
        assert(trim(s)[i] == s[a + i]);
    }
}

/// The first character of `trim_start(s)` is not whitespace.
pub proof fn lemma_trim_start_first(s: Seq<char>)
    ensures
        trim_start(s).len() == 0 || !is_ws(trim_start(s)[0]),
    decreases s.len(),
{
    if s.len() > 0 && is_ws(s[0]) {
        lemma_trim_start_first(s.drop_first());
    }
}

/// The last character of `trim_end(s)` is not whitespace.
pub proof fn lemma_trim_end_last(s: Seq<char>)
    ensures
        trim_end(s).len() == 0 || !is_ws(trim_end(s).last()),
    decreases s.len(),
{
    if s.len() > 0 && is_ws(s.last()) {
        lemma_trim_end_last(s.drop_last());
    }
}

/// Trimming twice is trimming once.
pub proof fn lemma_trim_idempotent(s: Seq<char>)
    ensures
        trim(trim(s)) == trim(s),
        trim_start(trim(s)) == trim(s),
        trim_end(trim(s)) == trim(s),
{
    let u = trim_start(s);
    let t = trim(s);
    lemma_trim_start_first(s);
    lemma_trim_end_prefix(u);
    lemma_trim_end_last(u);
    if t.len() > 0 {
        assert(t[0] == u[0]);
        assert(!is_ws(t[0]));
        assert(trim_start(t) == t);
        assert(!is_ws(t.last()));
    }
}

/// Index just past the leading whitespace of `v[lo..hi]`.
pub fn trim_start_idx(v: &[char], lo: usize, hi: usize) -> (a: usize)
    requires
        lo <= hi <= v@.len(),
    ensures
        lo <= a <= hi,
        v@.subrange(a as int, hi as int) == trim_start(v@.subrange(lo as int, hi as int)),
{
    let mut i = lo;
    while i < hi && is_ws_char(v[i])
        invariant
            lo <= i <= hi <= v@.len(),
            trim_start(v@.subrange(i as int, hi as int)) == trim_start(
                v@.subrange(lo as int, hi as int),
            ),
        decreases hi - i,
    {
        assert(v@.subrange(i as int, hi as int).drop_first() =~= v@.subrange(i + 1, hi as int));
        i = i + 1;
    }
    i
}

/// End index of `v[lo..hi]` with trailing whitespace removed.
pub fn trim_end_idx(v: &[char], lo: usize, hi: usize) -> (b: usize)
    requires
        lo <= hi <= v@.len(),
    ensures
        lo <= b <= hi,
        v@.subrange(lo as int, b as int) == trim_end(v@.subrange(lo as int, hi as int)),
{
    let mut j = hi;
    while j > lo && is_ws_char(v[j - 1])
        invariant
            lo <= j <= hi <= v@.len(),
            trim_end(v@.subrange(lo as int, j as int)) == trim_end(
                v@.subrange(lo as int, hi as int),
            ),
        decreases j - lo,
    {
        assert(v@.subrange(lo as int, j as int).drop_last() =~= v@.subrange(lo as int, j - 1));
        j = j - 1;
    }
    j
}

/// `trim` of `v[lo..hi]`, as an index range.
pub fn trim_idx(v: &[char], lo: usize, hi: usize) -> (r: (usize, usize))
    requires
        lo <= hi <= v@.len(),
    ensures
        lo <= r.0 <= r.1 <= hi,
        v@.subrange(r.0 as int, r.1 as int) == trim(v@.subrange(lo as int, hi as int)),
{
    let a = trim_start_idx(v, lo, hi);
    let b = trim_end_idx(v, a, hi);
    (a, b)
}

/// `trim` as a new vector.
pub fn trimmed(v: &[char]) -> (r: Vec<char>)
    ensures
        r@ == trim(v@),
{
    let (a, b) = trim_idx(v, 0, v.len());
    assert(v@.subrange(0, v@.len() as int) =~= v@);
    slice_chars(v, a, b)
}

/// `trim_end` as a new vector.
pub fn trimmed_end(v: &[char]) -> (r: Vec<char>)
    ensures
        r@ == trim_end(v@),
{
    let b = trim_end_idx(v, 0, v.len());
    assert(v@.subrange(0, v@.len() as int) =~= v@);
    slice_chars(v, 0, b)
}

/// `trim_start` as a new vector.
pub fn trimmed_start(v: &[char]) -> (r: Vec<char>)
    ensures
        r@ == trim_start(v@),
{
    let a = trim_start_idx(v, 0, v.len());
    assert(v@.subrange(0, v@.len() as int) =~= v@);
    slice_chars(v, a, v.len())
}

// ---------------------------------------------------------------------------
// lines and splitting
// ---------------------------------------------------------------------------

/// Drop one trailing `'\r'`.
pub open spec fn strip_cr(l: Seq<char>) -> Seq<char> {
    if l.len() > 0 && l.last() == '\r' {
        l.drop_last()
    } else {
        l
    }
}

/// `str::lines`: split at `'\n'`, dropping a `'\r'` right before each `'\n'`;
/// a final line ending is optional and yields no extra empty line.
pub open spec fn lines(s: Seq<char>) -> Seq<Seq<char>>
    decreases s.len(),
{
    if s.len() == 0 {
        Seq::empty()
    } else {
        match char_from(s, '\n', 0) {
            None => seq![s],
            Some(i) => {
                proof {
                    lemma_char_from(s, '\n', 0);
                }
                seq![strip_cr(s.take(i))] + lines(s.skip(i + 1))
            },
        }
    }
}

/// `str::split` at a single character.
pub open spec fn split_char(s: Seq<char>, c: char) -> Seq<Seq<char>>
    decreases s.len(),
{
    match char_from(s, c, 0) {
        None => seq![s],
        Some(i) => {
            proof {
                lemma_char_from(s, c, 0);
            }
            seq![s.take(i)] + split_char(s.skip(i + 1), c)
        },
    }
}

/// The views of a sequence of character vectors.
pub open spec fn views(v: Seq<Vec<char>>) -> Seq<Seq<char>> {
    v.map_values(|l: Vec<char>| l@)
}

/// `char_from` on a suffix is `char_from` on the whole, shifted.
pub proof fn lemma_char_from_skip(s: Seq<char>, c: char, k: int, i: int)
    requires
        0 <= k <= i,
        k <= s.len(),
    ensures
        char_from(s.skip(k), c, i - k) == (match char_from(s, c, i) {
            Some(j) => Some(j - k),
            None => None::<int>,
        }),
    decreases s.len() - i,
{
    if i < s.len() && s[i] != c {
        lemma_char_from_skip(s, c, k, i + 1);
    }
}

/// Exec `lines`.
pub fn lines_of(v: &[char]) -> (r: Vec<Vec<char>>)
    ensures
        views(r@) == lines(v@),
{
    let mut out: Vec<Vec<char>> = Vec::new();
    let mut pos: usize = 0;
    let n = v.len();
    assert(v@.skip(0) =~= v@);
    while pos < n
        invariant
            pos <= n == v@.len(),
            views(out@) + lines(v@.skip(pos as int)) == lines(v@),
        decreases n - pos,
    {
        let ghost rest = v@.skip(pos as int);
        let ghost prev = out@;
        proof {
            lemma_char_from_skip(v@, '\n', pos as int, pos as int);
            lemma_char_from(v@, '\n', pos as int);
        }
        match find_char(v, '\n', pos) {
            None => {
                let line = slice_chars(v, pos, n);
                assert(line@ =~= rest);
                out.push(line);
                assert(views(out@) =~= views(prev).push(line@));
                assert(v@.skip(n as int) =~= Seq::<char>::empty());
                pos = n;
            },
            Some(i) => {
                let mut end = i;
                if end > pos && v[end - 1] == '\r' {
                    end = end - 1;
                }
                let line = slice_chars(v, pos, end);
                assert(rest.skip(i - pos + 1) =~= v@.skip(i + 1));
                assert(line@ =~= strip_cr(rest.take(i - pos)));
                out.push(line);
                assert(views(out@) =~= views(prev).push(line@));
                pos = i + 1;
            },
        }
    }
    out
}


/// Exec `split` at a single character.
pub fn split_at_char(v: &[char], c: char) -> (r: Vec<Vec<char>>)
    ensures
        views(r@) == split_char(v@, c),
{
    let mut out: Vec<Vec<char>> = Vec::new();
    let mut pos: usize = 0;
    let n = v.len();
    assert(v@.skip(0) =~= v@);
    loop
        invariant
            pos <= n == v@.len(),
            views(out@) + split_char(v@.skip(pos as int), c) == split_char(v@, c),
        decreases n - pos,
    {
        let ghost rest = v@.skip(pos as int);
        let ghost prev = out@;
        proof {
            lemma_char_from_skip(v@, c, pos as int, pos as int);
            lemma_char_from(v@, c, pos as int);
        }
        match find_char(v, c, pos) {
            None => {
                let piece = slice_chars(v, pos, n);
                assert(piece@ =~= rest);
                out.push(piece);
                assert(views(out@) =~= views(prev).push(piece@));
                return out;
            },
            Some(i) => {
                let piece = slice_chars(v, pos, i);
                assert(rest.skip(i - pos + 1) =~= v@.skip(i + 1));
                assert(piece@ =~= rest.take(i - pos));
                out.push(piece);
                assert(views(out@) =~= views(prev).push(piece@));
                pos = i + 1;
            },
        }
    }
}

/// `str::to_ascii_lowercase` into a new vector.
pub fn lower_chars(v: &[char]) -> (r: Vec<char>)
    ensures
        r@ == lower_seq(v@),
{
    let mut r: Vec<char> = Vec::new();
    let mut i: usize = 0;
    while i < v.len()
        invariant
            i <= v@.len(),
            r@ == lower_seq(v@.take(i as int)),
        decreases v.len() - i,
    {
        r.push(lower_char(v[i]));
        i = i + 1;
        assert(lower_seq(v@.take(i as int)) =~= lower_seq(v@.take(i - 1)).push(lower(v@[i - 1])));
    }
    assert(v@.take(v@.len() as int) =~= v@);
    r
}

// ---------------------------------------------------------------------------
// replacement
// ---------------------------------------------------------------------------

/// `str::replace` for a non-empty pattern: every non-overlapping occurrence of
/// `pat`, scanning left to right, is replaced by `rep`.
pub open spec fn replace(s: Seq<char>, pat: Seq<char>, rep: Seq<char>) -> Seq<char>
    decreases s.len(),
{
    if pat.len() == 0 {
        s
    } else {
        match find(s, pat) {
            None => s,
            Some(i) => {
                proof {
                    lemma_find_from(s, pat, 0);
                }
                s.take(i) + rep + replace(s.skip(i + pat.len()), pat, rep)
            },
        }
    }
}

/// `find_from` on a suffix is `find_from` on the whole, shifted.
pub proof fn lemma_find_from_skip(s: Seq<char>, pat: Seq<char>, k: int, i: int)
    requires
        0 <= k <= i,
        k <= s.len(),
    ensures
        find_from(s.skip(k), pat, i - k) == (match find_from(s, pat, i) {
            Some(j) => Some(j - k),
            None => None::<int>,
        }),
    decreases s.len() + 1 - i,
{
    if i + pat.len() <= s.len() {
        assert(s.skip(k).subrange(i - k, i - k + pat.len()) =~= s.subrange(i, i + pat.len()));
        if s.subrange(i, i + pat.len()) != pat {
            lemma_find_from_skip(s, pat, k, i + 1);
        }
    }
}

/// Exec `replace` for a non-empty pattern.
pub fn replace_chars(s: &[char], pat: &[char], rep: &[char]) -> (r: Vec<char>)
    requires
        pat@.len() > 0,
    ensures
        r@ == replace(s@, pat@, rep@),
{
    let mut out: Vec<char> = Vec::new();
    let mut pos: usize = 0;
    let n = s.len();
    assert(s@.skip(0) =~= s@);
    loop
        invariant
            pos <= n == s@.len(),
            pat@.len() > 0,
            out@ + replace(s@.skip(pos as int), pat@, rep@) == replace(s@, pat@, rep@),
        decreases n - pos,
    {
        let ghost rest = s@.skip(pos as int);
        proof {
            lemma_find_from_skip(s@, pat@, pos as int, pos as int);
            lemma_find_from(s@, pat@, pos as int);
        }
        match find_at(s, pat, pos) {
            None => {
                let tail = slice_chars(s, pos, n);
                assert(tail@ =~= rest);
                push_all(&mut out, &tail);
                return out;
            },
            Some(i) => {
                let head = slice_chars(s, pos, i);
                assert(head@ =~= rest.take(i - pos));
                assert(rest.skip(i - pos + pat@.len()) =~= s@.skip(i + pat@.len()));
                let ghost before = out@;
                push_all(&mut out, &head);
                push_all(&mut out, rep);
                assert(out@ =~= before + (rest.take(i - pos) + rep@));
                pos = i + pat.len();
            },
        }
    }
}

/// Replace every occurrence of string `pat` (non-empty) by string `rep`.
pub fn replace_str(s: &[char], pat: &str, rep: &str) -> (r: Vec<char>)
    requires
        pat@.len() > 0,
    ensures
        r@ == replace(s@, pat@, rep@),
{
    let p = chars_of(pat);
    let q = chars_of(rep);
    replace_chars(s, &p, &q)
}

// ---------------------------------------------------------------------------
// decimal numbers
// ---------------------------------------------------------------------------

/// The ASCII digit for `d` (`0 <= d < 10`).
pub open spec fn digit(d: int) -> char {
    (d + 48) as char
}

/// Decimal representation of `n` (what `format!("{n}")` prints).
pub open spec fn decimal(n: nat) -> Seq<char>
    decreases n,
{
    if n < 10 {
        seq![digit(n as int)]
    } else {
        decimal(n / 10).push(digit((n % 10) as int))
    }
}

fn digit_char(d: u64) -> (c: char)
    requires
        d < 10,
    ensures
        c == digit(d as int),
{
    let b: u8 = (d as u8) + 48;
    b as char
}

/// Exec `decimal`.
pub fn decimal_chars(n: u64) -> (v: Vec<char>)
    ensures
        v@ == decimal(n as nat),
    decreases n,
{
    if n < 10 {
        let mut v: Vec<char> = Vec::new();
        v.push(digit_char(n));
        assert(v@ =~= seq![digit(n as int)]);
        v
    } else {
        let mut v = decimal_chars(n / 10);
        v.push(digit_char(n % 10));
        v
    }
}

} // verus!
