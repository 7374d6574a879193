//! Character-level text helpers shared by the parsers: white space, ASCII
//! case folding, searching, splitting and decimal numbers.

use vstd::prelude::*;

verus! {

// ---------------------------------------------------------------------------
// Characters
// ---------------------------------------------------------------------------

/// Unicode `White_Space`: the characters that `char::is_whitespace` accepts,
/// and so the characters that `str::trim` and `str::split_whitespace` drop.
pub open spec fn is_space(c: char) -> bool {
    ||| ('\u{9}' <= c && c <= '\u{d}')
    ||| c == ' '
    ||| c == '\u{85}'
    ||| c == '\u{a0}'
    ||| c == '\u{1680}'
    ||| ('\u{2000}' <= c && c <= '\u{200a}')
    ||| c == '\u{2028}'
    ||| c == '\u{2029}'
    ||| c == '\u{202f}'
    ||| c == '\u{205f}'
    ||| c == '\u{3000}'
}

pub fn is_space_char(c: char) -> (r: bool)
    ensures
        r == is_space(c),
{
    ('\u{9}' <= c && c <= '\u{d}') || c == ' ' || c == '\u{85}' || c == '\u{a0}' || c
        == '\u{1680}' || ('\u{2000}' <= c && c <= '\u{200a}') || c == '\u{2028}' || c
        == '\u{2029}' || c == '\u{202f}' || c == '\u{205f}' || c == '\u{3000}'
}

/// An ASCII decimal digit.
pub open spec fn is_digit(c: char) -> bool {
    '0' <= c && c <= '9'
}

/// An ASCII letter.
pub open spec fn is_alpha(c: char) -> bool {
    ('a' <= c && c <= 'z') || ('A' <= c && c <= 'Z')
}

pub fn is_digit_char(c: char) -> (r: bool)
    ensures
        r == is_digit(c),
{
    '0' <= c && c <= '9'
}

pub fn is_alpha_char(c: char) -> (r: bool)
    ensures
        r == is_alpha(c),
{
    ('a' <= c && c <= 'z') || ('A' <= c && c <= 'Z')
}

/// ASCII lower-casing of one character; every other character is unchanged.
pub open spec fn lower(c: char) -> char {
    if 'A' <= c && c <= 'Z' {
        ((c as u32) + 32) as char
    } else {
        c
    }
}

/// ASCII lower-casing of a whole text (`to_ascii_lowercase`).
pub open spec fn lower_all(s: Seq<char>) -> Seq<char> {
    s.map_values(|c: char| lower(c))
}

pub fn lower_char(c: char) -> (r: char)
    ensures
        r == lower(c),
{
    if 'A' <= c && c <= 'Z' {
        ((c as u8) + 32) as char
    } else {
        c
    }
}

// ---------------------------------------------------------------------------
// Conversions between `str`, `String` and character vectors
// ---------------------------------------------------------------------------

/// Calls `String::push`, which appends one character at the end of the string.
#[verifier::external_body]
pub(crate) fn push_char(s: &mut String, c: char)
    ensures
        final(s)@ == old(s)@.push(c),
{
    s.push(c);
}

/// The characters of `s`, in order.
pub fn chars_of(s: &str) -> (v: Vec<char>)
    ensures
        v@ == s@,
{
    let mut v: Vec<char> = Vec::new();
    for c in it: s.chars()
        invariant
            v@ == it.seq().take(it.index() as int),
            it.seq() == s@,
    {
        v.push(c);
    }
    v
}

/// A string made of the given characters.
pub fn string_of(v: &Vec<char>) -> (s: String)
    ensures
        s@ == v@,
{
    let mut s = String::new();
    let mut i: usize = 0;
    while i < v.len()
        invariant
            i <= v.len(),
            s@ == v@.take(i as int),
        decreases v.len() - i,
    {
        push_char(&mut s, v[i]);
        i = i + 1;
        assert(s@ =~= v@.take(i as int));
    }
    assert(v@.take(v.len() as int) =~= v@);
    s
}

/// The characters `v[lo..hi]` as a vector of their own.
pub fn slice(v: &Vec<char>, lo: usize, hi: usize) -> (r: Vec<char>)
    requires
        lo <= hi <= v.len(),
    ensures
        r@ == v@.subrange(lo as int, hi as int),
{
    let mut r: Vec<char> = Vec::new();
    let mut i: usize = lo;
    while i < hi
        invariant
            lo <= i <= hi <= v.len(),
            r@ == v@.subrange(lo as int, i as int),
        decreases hi - i,
    {
        r.push(v[i]);
        i = i + 1;
        assert(r@ =~= v@.subrange(lo as int, i as int));
    }
    r
}

/// The ASCII lower-case form of `v`.
pub fn lower_vec(v: &Vec<char>) -> (r: Vec<char>)
    ensures
        r@ == lower_all(v@),
{
    let mut r: Vec<char> = Vec::new();
    let mut i: usize = 0;
    while i < v.len()
        invariant
            i <= v.len(),
            r@ == lower_all(v@.take(i as int)),
        decreases v.len() - i,
    {
        r.push(lower_char(v[i]));
        i = i + 1;
        assert(r@ =~= lower_all(v@.take(i as int)));
    }
    assert(v@.take(v.len() as int) =~= v@);
    r
}

/// Whether the two character sequences are equal.
pub fn same_chars(a: &Vec<char>, b: &Vec<char>) -> (r: bool)
    ensures
        r == (a@ == b@),
{
    if a.len() != b.len() {
        return false;
    }
    let mut i: usize = 0;
    while i < a.len()
        invariant
            i <= a.len() == b.len(),
            forall|j: int| 0 <= j < i ==> a@[j] == b@[j],
        decreases a.len() - i,
    {
        if a[i] != b[i] {
            return false;
        }
        i = i + 1;
    }
    assert(a@ =~= b@);
    true
}

// ---------------------------------------------------------------------------
// Trimming
// ---------------------------------------------------------------------------

/// The first index at or after `i` that does not hold white space
/// (`s.len()` if there is none).
pub open spec fn skip_space(s: Seq<char>, i: int) -> int
    decreases s.len() - i,
{
    if 0 <= i < s.len() && is_space(s[i]) {
        skip_space(s, i + 1)
    } else {
        i
    }
}

/// The end of `s[lo..hi]` once white space at its end is dropped.
pub open spec fn drop_space_end(s: Seq<char>, lo: int, hi: int) -> int
    decreases hi - lo,
{
    if lo < hi && is_space(s[hi - 1]) {
        drop_space_end(s, lo, hi - 1)
    } else {
        hi
    }
}

/// `str::trim`: `s` without its leading and trailing white space.
pub open spec fn trim(s: Seq<char>) -> Seq<char> {
    let lo = skip_space(s, 0);
    s.subrange(lo, drop_space_end(s, lo, s.len() as int))
}

pub proof fn lemma_skip_space_bounds(s: Seq<char>, i: int)
    requires
        0 <= i <= s.len(),
    ensures
        i <= skip_space(s, i) <= s.len(),
        skip_space(s, i) < s.len() ==> !is_space(s[skip_space(s, i)]),
        forall|j: int| i <= j < skip_space(s, i) ==> is_space(s[j]),
    decreases s.len() - i,
{
    if i < s.len() && is_space(s[i]) {
        lemma_skip_space_bounds(s, i + 1);
    }
}

pub proof fn lemma_drop_space_end_bounds(s: Seq<char>, lo: int, hi: int)
    requires
        0 <= lo <= hi <= s.len(),
    ensures
        lo <= drop_space_end(s, lo, hi) <= hi,
        drop_space_end(s, lo, hi) > lo ==> !is_space(s[drop_space_end(s, lo, hi) - 1]),
        forall|j: int| drop_space_end(s, lo, hi) <= j < hi ==> is_space(s[j]),
    decreases hi - lo,
{
    if lo < hi && is_space(s[hi - 1]) {
        lemma_drop_space_end_bounds(s, lo, hi - 1);
    }
}

/// `str::trim` on a character vector.
pub fn trim_vec(v: &Vec<char>) -> (r: Vec<char>)
    ensures
        r@ == trim(v@),
{
    let mut lo: usize = 0;
    while lo < v.len() && is_space_char(v[lo])
        invariant
            lo <= v.len(),
            skip_space(v@, 0) == skip_space(v@, lo as int),
        decreases v.len() - lo,
    {
        lo = lo + 1;
    }
    let mut hi: usize = v.len();
    while hi > lo && is_space_char(v[hi - 1])
        invariant
            lo <= hi <= v.len(),
            skip_space(v@, 0) == lo,
            drop_space_end(v@, lo as int, v.len() as int) == drop_space_end(v@, lo as int, hi as int),
        decreases hi,
    {
        hi = hi - 1;
    }
    slice(v, lo, hi)
}

/// Trimming is idempotent: trimmed text has no white space at either end.
pub proof fn lemma_trim_idempotent(s: Seq<char>)
    ensures
        trim(trim(s)) == trim(s),
{
    let lo = skip_space(s, 0);
    lemma_skip_space_bounds(s, 0);
    lemma_drop_space_end_bounds(s, lo, s.len() as int);
    let t = trim(s);
    lemma_skip_space_bounds(t, 0);
    if t.len() > 0 {
        assert(!is_space(t[0]));
        assert(skip_space(t, 0) == 0);
        lemma_drop_space_end_bounds(t, 0, t.len() as int);
        assert(!is_space(t[t.len() - 1]));
        assert(drop_space_end(t, 0, t.len() as int) == t.len());
    }
    assert(trim(t) =~= t);
}

// ---------------------------------------------------------------------------
// Searching
// ---------------------------------------------------------------------------

/// The first index at or after `i` that holds `c` (`s.len()` if there is none).
pub open spec fn find_from(s: Seq<char>, c: char, i: int) -> int
    decreases s.len() - i,
{
    if i >= s.len() {
        s.len() as int
    } else if 0 <= i && s[i] == c {
        i
    } else {
        find_from(s, c, i + 1)
    }
}

pub proof fn lemma_find_from_bounds(s: Seq<char>, c: char, i: int)
    requires
        0 <= i <= s.len(),
    ensures
        i <= find_from(s, c, i) <= s.len(),
        find_from(s, c, i) < s.len() ==> s[find_from(s, c, i)] == c,
        forall|j: int| i <= j < find_from(s, c, i) ==> s[j] != c,
    decreases s.len() - i,
{
    if i < s.len() && s[i] != c {
        lemma_find_from_bounds(s, c, i + 1);
    }
}

/// Searching a text that ends with `p` from inside `p` is searching `p`.
pub proof fn lemma_find_from_shift(p: Seq<char>, b: Seq<char>, c: char, j: int)
    requires
        0 <= j <= b.len(),
    ensures
        find_from(p + b, c, p.len() + j) == p.len() + find_from(b, c, j),
    decreases b.len() - j,
{
    if j < b.len() && b[j] != c {
        lemma_find_from_shift(p, b, c, j + 1);
        assert((p + b)[p.len() + j] == b[j]);
    } else if j < b.len() {
        assert((p + b)[p.len() + j] == b[j]);
    }
}

/// The first index at or after `i` of `c` in `v` (`v.len()` if there is none).
pub fn find_char(v: &Vec<char>, c: char, i: usize) -> (r: usize)
    requires
        i <= v.len(),
    ensures
        r == find_from(v@, c, i as int),
{
    let mut j: usize = i;
    while j < v.len() && v[j] != c
        invariant
            i <= j <= v.len(),
            find_from(v@, c, i as int) == find_from(v@, c, j as int),
        decreases v.len() - j,
    {
        j = j + 1;
    }
    j
}

/// Whether `p` occurs in `s` (`str::contains`).
pub open spec fn contains(s: Seq<char>, p: Seq<char>) -> bool {
    exists|i: int| 0 <= i && i + p.len() <= s.len() && #[trigger] s.subrange(i, i + p.len()) == p
}

/// Whether `p` occurs in `s` starting at index `i`.
fn occurs_at(s: &Vec<char>, p: &Vec<char>, i: usize) -> (r: bool)
    requires
        i + p.len() <= s.len(),
    ensures
        r == (s@.subrange(i as int, i + p.len()) == p@),
{
    let mut j: usize = 0;
    while j < p.len()
        invariant
            j <= p.len(),
            i + p.len() <= s.len(),
            forall|k: int| 0 <= k < j ==> s@[i + k] == p@[k],
        decreases p.len() - j,
    {
        if s[i + j] != p[j] {
            assert(s@.subrange(i as int, i + p.len())[j as int] != p@[j as int]);
            return false;
        }
        j = j + 1;
    }
    assert(s@.subrange(i as int, i + p.len()) =~= p@);
    true
}

/// Whether `p` occurs in `s`.
pub fn contains_vec(s: &Vec<char>, p: &Vec<char>) -> (r: bool)
    ensures
        r == contains(s@, p@),
{
    if p.len() > s.len() {
        return false;
    }
    if p.len() == 0 {
        assert(s@.subrange(0, 0 + p@.len() as int) =~= p@);
        return true;
    }
    let last: usize = s.len() - p.len();
    let mut i: usize = 0;
    while i <= last
        invariant
            last + p.len() == s.len(),
            p.len() > 0,
            i <= last + 1,
            forall|k: int| 0 <= k < i ==> #[trigger] s@.subrange(k, k + p.len()) != p@,
        decreases last + 1 - i,
    {
        if occurs_at(s, p, i) {
            return true;
        }
        i = i + 1;
    }
    false
}

// ---------------------------------------------------------------------------
// Splitting at white space
// ---------------------------------------------------------------------------

/// The first index at or after `i` that holds white space (`s.len()` if
/// there is none).
pub open spec fn word_end(s: Seq<char>, i: int) -> int
    decreases s.len() - i,
{
    if 0 <= i < s.len() && !is_space(s[i]) {
        word_end(s, i + 1)
    } else {
        i
    }
}

pub proof fn lemma_word_end_bounds(s: Seq<char>, i: int)
    requires
        0 <= i <= s.len(),
    ensures
        i <= word_end(s, i) <= s.len(),
        word_end(s, i) < s.len() ==> is_space(s[word_end(s, i)]),
        forall|j: int| i <= j < word_end(s, i) ==> !is_space(s[j]),
    decreases s.len() - i,
{
    if i < s.len() && !is_space(s[i]) {
        lemma_word_end_bounds(s, i + 1);
    }
}

/// The white-space separated words of `s[i..]` (`str::split_whitespace`).
pub open spec fn words_from(s: Seq<char>, i: int) -> Seq<Seq<char>>
    decreases s.len() - i,
{
    if 0 <= i < s.len() {
        let a = skip_space(s, i);
        if a < s.len() {
            let b = word_end(s, a);
            proof {
                lemma_skip_space_bounds(s, i);
                lemma_word_end_bounds(s, a);
            }
            seq![s.subrange(a, b)] + words_from(s, b)
        } else {
            Seq::empty()
        }
    } else {
        Seq::empty()
    }
}

/// The white-space separated words of `s`, in order.
pub open spec fn words(s: Seq<char>) -> Seq<Seq<char>> {
    words_from(s, 0)
}

/// The views of a sequence of strings.
pub open spec fn string_views(v: Seq<String>) -> Seq<Seq<char>> {
    v.map_values(|x: String| x@)
}

/// `split_whitespace`, each word as a `String`.
pub fn words_vec(v: &Vec<char>) -> (r: Vec<String>)
    ensures
        string_views(r@) == words(v@),
{
    let mut r: Vec<String> = Vec::new();
    let mut i: usize = 0;
    while i < v.len()
        invariant
            i <= v.len(),
            words(v@) == string_views(r@) + words_from(v@, i as int),
        decreases v.len() - i,
    {
        let ghost before = string_views(r@);
        let mut a: usize = i;
        while a < v.len() && is_space_char(v[a])
            invariant
                i <= a <= v.len(),
                skip_space(v@, i as int) == skip_space(v@, a as int),
            decreases v.len() - a,
        {
            a = a + 1;
        }
        if a == v.len() {
            assert(words_from(v@, i as int) =~= Seq::<Seq<char>>::empty());
            assert(words(v@) =~= string_views(r@));
            i = a;
        } else {
            let mut b: usize = a;
            while b < v.len() && !is_space_char(v[b])
                invariant
                    a <= b <= v.len(),
                    word_end(v@, a as int) == word_end(v@, b as int),
                decreases v.len() - b,
            {
                b = b + 1;
            }
            let w = string_of(&slice(v, a, b));
            r.push(w);
            assert(string_views(r@) =~= before.push(v@.subrange(a as int, b as int)));
            assert(words(v@) =~= string_views(r@) + words_from(v@, b as int));
            i = b;
        }
    }
    assert(words_from(v@, v.len() as int) =~= Seq::<Seq<char>>::empty());
    assert(words(v@) =~= string_views(r@));
    r
}

proof fn lemma_skip_space_to(s: Seq<char>, i: int, lo: int)
    requires
        0 <= i <= lo <= s.len(),
        forall|k: int| i <= k < lo ==> is_space(#[trigger] s[k]),
        lo < s.len() ==> !is_space(s[lo]),
    ensures
        skip_space(s, i) == lo,
    decreases lo - i,
{
    if i < lo {
        lemma_skip_space_to(s, i + 1, lo);
    }
}

proof fn lemma_drop_space_end_to(s: Seq<char>, lo: int, j: int, hi: int)
    requires
        0 <= lo <= hi <= j <= s.len(),
        forall|k: int| hi <= k < j ==> is_space(#[trigger] s[k]),
        hi > lo ==> !is_space(s[hi - 1]),
    ensures
        drop_space_end(s, lo, j) == hi,
    decreases j - hi,
{
    if hi < j {
        lemma_drop_space_end_to(s, lo, j - 1, hi);
    }
}

/// `trim(s)` is `s[lo..hi]` when only white space lies outside that range
/// and the range, unless empty, starts and ends with other characters.
pub proof fn lemma_trim_is(s: Seq<char>, lo: int, hi: int)
    requires
        0 <= lo <= hi <= s.len(),
        forall|k: int| 0 <= k < lo ==> is_space(#[trigger] s[k]),
        forall|k: int| hi <= k < s.len() ==> is_space(#[trigger] s[k]),
        lo < hi ==> !is_space(s[lo]) && !is_space(s[hi - 1]),
    ensures
        trim(s) == s.subrange(lo, hi),
{
    if lo < hi {
        lemma_skip_space_to(s, 0, lo);
        lemma_drop_space_end_to(s, lo, s.len() as int, hi);
    } else {
        assert forall|k: int| 0 <= k < s.len() implies is_space(#[trigger] s[k]) by {
            if k >= lo {
                assert(k >= hi);
            }
        }
        lemma_skip_space_to(s, 0, s.len() as int);
        assert(trim(s) =~= s.subrange(lo, hi));
    }
}

/// The bounds of `trim(s)` within `s`.
pub proof fn lemma_trim_bounds(s: Seq<char>) -> (r: (int, int))
    ensures
        0 <= r.0 <= r.1 <= s.len(),
        trim(s) == s.subrange(r.0, r.1),
        forall|k: int| 0 <= k < r.0 ==> is_space(#[trigger] s[k]),
        forall|k: int| r.1 <= k < s.len() ==> is_space(#[trigger] s[k]),
        r.0 < r.1 ==> !is_space(s[r.0]) && !is_space(s[r.1 - 1]),
        r.0 == r.1 ==> forall|k: int| 0 <= k < s.len() ==> is_space(#[trigger] s[k]),
{
    let lo = skip_space(s, 0);
    lemma_skip_space_bounds(s, 0);
    let hi = drop_space_end(s, lo, s.len() as int);
    lemma_drop_space_end_bounds(s, lo, s.len() as int);
    if lo == hi {
        assert forall|k: int| 0 <= k < s.len() implies is_space(#[trigger] s[k]) by {
            if k >= lo {
                assert(k >= hi);
            }
        }
    }
    (lo, hi)
}

/// A text that neither starts nor ends with white space is its own trim.
pub proof fn lemma_trim_plain(s: Seq<char>)
    requires
        s.len() > 0,
        !is_space(s[0]),
        !is_space(s[s.len() - 1]),
    ensures
        trim(s) == s,
{
    lemma_trim_is(s, 0, s.len() as int);
    assert(s.subrange(0, s.len() as int) =~= s);
}

/// `find_from` finds the first `c` at or after `i`.
pub proof fn lemma_find_from_is(s: Seq<char>, c: char, i: int, k: int)
    requires
        0 <= i <= k <= s.len(),
        forall|j: int| i <= j < k ==> #[trigger] s[j] != c,
        k < s.len() ==> s[k] == c,
    ensures
        find_from(s, c, i) == k,
    decreases k - i,
{
    if i < k {
        lemma_find_from_is(s, c, i + 1, k);
    }
}

proof fn lemma_skip_space_sub(s: Seq<char>, lo: int, hi: int, j: int)
    requires
        0 <= lo <= j <= hi <= s.len(),
        forall|k: int| hi <= k < s.len() ==> is_space(#[trigger] s[k]),
    ensures
        skip_space(s, j) < hi ==> skip_space(s.subrange(lo, hi), j - lo) == skip_space(s, j) - lo,
        skip_space(s, j) >= hi ==> skip_space(s, j) == s.len() && skip_space(
            s.subrange(lo, hi),
            j - lo,
        ) == hi - lo,
    decreases hi - j,
{
    let t = s.subrange(lo, hi);
    lemma_skip_space_bounds(s, j);
    if j < hi {
        assert(t[j - lo] == s[j]);
        if is_space(s[j]) {
            lemma_skip_space_sub(s, lo, hi, j + 1);
        }
    } else {
        lemma_skip_space_to(s, j, s.len() as int);
    }
}

proof fn lemma_word_end_sub(s: Seq<char>, lo: int, hi: int, a: int)
    requires
        0 <= lo <= a <= hi <= s.len(),
        forall|k: int| hi <= k < s.len() ==> is_space(#[trigger] s[k]),
    ensures
        word_end(s, a) <= hi,
        word_end(s.subrange(lo, hi), a - lo) == word_end(s, a) - lo,
    decreases hi - a,
{
    let t = s.subrange(lo, hi);
    if a < hi {
        assert(t[a - lo] == s[a]);
        if !is_space(s[a]) {
            lemma_word_end_sub(s, lo, hi, a + 1);
        }
    }
}

proof fn lemma_words_sub(s: Seq<char>, lo: int, hi: int, j: int)
    requires
        0 <= lo <= j <= hi <= s.len(),
        forall|k: int| hi <= k < s.len() ==> is_space(#[trigger] s[k]),
    ensures
        words_from(s, j) == words_from(s.subrange(lo, hi), j - lo),
    decreases hi - j,
{
    let t = s.subrange(lo, hi);
    lemma_skip_space_sub(s, lo, hi, j);
    lemma_skip_space_bounds(s, j);
    let a = skip_space(s, j);
    if a < hi {
        lemma_word_end_sub(s, lo, hi, a);
        lemma_word_end_bounds(s, a);
        let b = word_end(s, a);
        assert(b > a) by {
            assert(!is_space(s[a]));
        }
        lemma_words_sub(s, lo, hi, b);
        assert(t.subrange(a - lo, b - lo) =~= s.subrange(a, b));
    } else {
        if j < s.len() {
            assert(words_from(s, j) =~= Seq::<Seq<char>>::empty());
        }
    }
}

/// White space around a text does not change its words.
pub proof fn lemma_words_trim(s: Seq<char>)
    ensures
        words(trim(s)) == words(s),
{
    let (lo, hi) = lemma_trim_bounds(s);
    lemma_words_sub(s, lo, hi, lo);
    if lo < hi {
        lemma_skip_space_to(s, 0, lo);
        lemma_skip_space_to(s, lo, lo);
        assert(words_from(s, 0) == words_from(s, lo));
    } else {
        lemma_skip_space_to(s, 0, s.len() as int);
        assert(words_from(s, 0) =~= Seq::<Seq<char>>::empty());
        assert(words_from(trim(s), 0) =~= Seq::<Seq<char>>::empty());
    }
}

// ---------------------------------------------------------------------------
// Decimal numbers
// ---------------------------------------------------------------------------

/// All characters of `s` are ASCII digits.
pub open spec fn all_digits(s: Seq<char>) -> bool {
    forall|i: int| 0 <= i < s.len() ==> is_digit(#[trigger] s[i])
}

/// The value of one ASCII digit.
pub open spec fn digit_value(c: char) -> nat {
    (c as int - '0' as int) as nat
}

/// The value of a string of ASCII digits, read in base ten.
pub open spec fn digits_value(s: Seq<char>) -> nat
    decreases s.len(),
{
    if s.len() == 0 {
        0
    } else {
        digits_value(s.drop_last()) * 10 + digit_value(s.last())
    }
}

/// `s` without the one leading `+` that the standard parsers accept.
pub open spec fn unsigned_body(s: Seq<char>) -> Seq<char> {
    if s.len() > 0 && s[0] == '+' {
        s.drop_first()
    } else {
        s
    }
}

/// What `str::parse` gives for an unsigned integer type whose largest value
/// is `max`: an optional `+`, then one or more ASCII digits, whose value fits.
pub open spec fn parse_unsigned(s: Seq<char>, max: nat) -> Option<nat> {
    let b = unsigned_body(s);
    if b.len() > 0 && all_digits(b) && digits_value(b) <= max {
        Some(digits_value(b))
    } else {
        None
    }
}

/// What `str::parse` gives for a signed integer type whose values run from
/// `min` to `max`: an optional `+` or `-`, then one or more ASCII digits,
/// whose value fits.
pub open spec fn parse_signed(s: Seq<char>, min: int, max: int) -> Option<int> {
    if s.len() > 0 && s[0] == '-' {
        let b = s.drop_first();
        if b.len() > 0 && all_digits(b) && min <= -digits_value(b) {
            Some(-digits_value(b))
        } else {
            None
        }
    } else {
        match parse_unsigned(s, max as nat) {
            Some(n) => if max >= 0 { Some(n as int) } else { None },
            None => None,
        }
    }
}

/// A prefix of a run of digits is worth no more than the whole run.
pub proof fn lemma_digits_value_prefix(s: Seq<char>, k: int)
    requires
        0 <= k <= s.len(),
    ensures
        digits_value(s.take(k)) <= digits_value(s),
    decreases s.len() - k,
{
    if k < s.len() {
        lemma_digits_value_prefix(s, k + 1);
        assert(s.take(k + 1).drop_last() =~= s.take(k));
    }
    assert(s.take(s.len() as int) =~= s);
}

/// Reads the digits `v[start..]`: their value when they are one or more ASCII
/// digits worth at most `max`, else `None`.
fn digits_at_most(v: &Vec<char>, start: usize, max: u64) -> (r: Option<u64>)
    requires
        start <= v.len(),
    ensures
        ({
            let b = v@.subrange(start as int, v.len() as int);
            match r {
                Some(n) => b.len() > 0 && all_digits(b) && digits_value(b) <= max && n == digits_value(b),
                None => !(b.len() > 0 && all_digits(b) && digits_value(b) <= max),
            }
        }),
{
    let ghost b = v@.subrange(start as int, v.len() as int);
    if start == v.len() {
        return None;
    }
    let mut i: usize = start;
    let mut n: u64 = 0;
    while i < v.len()
        invariant
            start <= i <= v.len(),
            b == v@.subrange(start as int, v.len() as int),
            all_digits(v@.subrange(start as int, i as int)),
            n == digits_value(v@.subrange(start as int, i as int)),
            n <= max,
        decreases v.len() - i,
    {
        let c = v[i];
        if !is_digit_char(c) {
            assert(!is_digit(b[i - start]));
            return None;
        }
        let d: u64 = (c as u64) - ('0' as u64);
        let ghost prev = v@.subrange(start as int, i as int);
        let ghost next = v@.subrange(start as int, i + 1);
        assert(next.drop_last() =~= prev);
        assert(next.last() == c);
        if d > max || n > (max - d) / 10 {
            assert(n * 10 + d > max) by (nonlinear_arith)
                requires
                    d > max || n > (max - d) / 10,
            ;
            proof {
                assert(b.take(i + 1 - start) =~= next);
                lemma_digits_value_prefix(b, i + 1 - start);
            }
            return None;
        }
        assert(n * 10 + d <= max) by (nonlinear_arith)
            requires
                n <= (max - d) / 10,
                d <= 9,
        ;
        n = n * 10 + d;
        i = i + 1;
        assert(all_digits(next));
    }
    Some(n)
}

/// `str::parse::<u32>`, `str::parse::<usize>` and the like: the value of `v`
/// as an unsigned integer of at most `max`.
pub fn parse_unsigned_vec(v: &Vec<char>, max: u64) -> (r: Option<u64>)
    ensures
        match r {
            Some(n) => parse_unsigned(v@, max as nat) == Some(n as nat),
            None => parse_unsigned(v@, max as nat) is None,
        },
{
    let start: usize = if v.len() > 0 && v[0] == '+' {
        1
    } else {
        0
    };
    assert(unsigned_body(v@) =~= v@.subrange(start as int, v.len() as int));
    digits_at_most(v, start, max)
}

/// `str::parse::<i32>`: the value of `v` as a signed 32-bit integer.
pub fn parse_i32_vec(v: &Vec<char>) -> (r: Option<i32>)
    ensures
        match r {
            Some(n) => parse_signed(v@, i32::MIN as int, i32::MAX as int) == Some(n as int),
            None => parse_signed(v@, i32::MIN as int, i32::MAX as int) is None,
        },
{
    if v.len() > 0 && v[0] == '-' {
        assert(v@.drop_first() =~= v@.subrange(1, v.len() as int));
        match digits_at_most(v, 1, 0x8000_0000) {
            Some(n) => {
                if n == 0x8000_0000 {
                    Some(i32::MIN)
                } else {
                    Some(-(n as i32))
                }
            },
            None => None,
        }
    } else {
        match parse_unsigned_vec(v, 0x7fff_ffff) {
            Some(n) => Some(n as i32),
            None => None,
        }
    }
}

/// The decimal digit for `d < 10`.
pub open spec fn digit_char(d: nat) -> char {
    ('0' as nat + d) as char
}

/// The decimal form of `n` (`to_string` on an unsigned integer).
pub open spec fn decimal(n: nat) -> Seq<char>
    decreases n,
{
    if n < 10 {
        seq![digit_char(n)]
    } else {
        decimal(n / 10).push(digit_char(n % 10))
    }
}

/// Appends the decimal form of `n` to `out`.
pub fn push_decimal(out: &mut String, n: u64)
    ensures
        final(out)@ == old(out)@ + decimal(n as nat),
    decreases n,
{
    if n >= 10 {
        push_decimal(out, n / 10);
    }
    let d: u8 = (n % 10) as u8;
    push_char(out, (48u8 + d) as char);
    assert(final(out)@ =~= old(out)@ + decimal(n as nat)) by {
        if n >= 10 {
            assert(decimal(n as nat) == decimal((n / 10) as nat).push(digit_char((n % 10) as nat)));
        }
    }
}

/// The decimal form of `n`, as `n.to_string()` gives it.
pub fn decimal_string(n: u64) -> (s: String)
    ensures
        s@ == decimal(n as nat),
{
    let mut s = String::new();
    push_decimal(&mut s, n);
    assert(s@ =~= decimal(n as nat));
    s
}

/// Reading a number back from its decimal form gives the number again.
pub proof fn lemma_parse_decimal(n: nat, max: nat)
    requires
        n <= max,
    ensures
        parse_unsigned(decimal(n), max) == Some(n),
{
    lemma_decimal_digits(n);
    assert(unsigned_body(decimal(n)) == decimal(n));
}

pub proof fn lemma_decimal_digits(n: nat)
    ensures
        decimal(n).len() > 0,
        all_digits(decimal(n)),
        digits_value(decimal(n)) == n,
        is_digit(decimal(n)[0]),
    decreases n,
{
    if n < 10 {
        assert(decimal(n).drop_last() =~= Seq::<char>::empty());
        assert(digits_value(Seq::<char>::empty()) == 0);
        assert(digit_value(digit_char(n)) == n);
        assert(digits_value(decimal(n)) == digits_value(decimal(n).drop_last()) * 10 + digit_value(decimal(n).last()));
    } else {
        lemma_decimal_digits(n / 10);
        let d = decimal(n);
        assert(d.drop_last() =~= decimal(n / 10));
        assert(digit_value(digit_char(n % 10)) == n % 10);
        assert((n / 10) * 10 + n % 10 == n);
        assert(digits_value(d) == digits_value(d.drop_last()) * 10 + digit_value(d.last()));
        assert(d[0] == decimal(n / 10)[0]);
        assert forall|i: int| 0 <= i < d.len() implies is_digit(#[trigger] d[i]) by {
            if i < d.len() - 1 {
                assert(d[i] == decimal(n / 10)[i]);
            }
        }
    }
}

} // verus!
