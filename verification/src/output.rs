//! The active output's width, read from the listing that `cosmic-randr list`
//! prints: colour escapes are stripped, and the first line marked
//! `(current)` that holds a `WIDTHxHEIGHT` mode gives the width.
//!
//! Running the listing program is the caller's part; this module takes what
//! it printed.

use vstd::prelude::*;
use crate::text::{
    chars_of, contains, contains_vec, find_char, find_from, is_alpha, is_alpha_char, is_digit,
    is_digit_char, is_space, decimal, lemma_decimal_digits, lemma_parse_decimal, lemma_trim_plain,
    lemma_find_from_bounds, lemma_find_from_is, lemma_find_from_shift, push_char, parse_unsigned, parse_unsigned_vec, slice, trim,
    trim_vec,
};

verus! {

/// The escape character that starts an ANSI control sequence.
pub open spec fn is_escape(c: char) -> bool {
    c == '\u{1b}'
}

// ---------------------------------------------------------------------------
// Stripping ANSI escapes
// ---------------------------------------------------------------------------

/// Where a control sequence whose parameters start at `j` ends: just after
/// its first ASCII letter, or at the end of the text.
pub open spec fn csi_end(s: Seq<char>, j: int) -> int
    decreases s.len() - j,
{
    if j < 0 || j >= s.len() {
        s.len() as int
    } else if is_alpha(s[j]) {
        j + 1
    } else {
        csi_end(s, j + 1)
    }
}

pub proof fn lemma_csi_end_bounds(s: Seq<char>, j: int)
    requires
        0 <= j <= s.len(),
    ensures
        j <= csi_end(s, j) <= s.len(),
    decreases s.len() - j,
{
    if j < s.len() && !is_alpha(s[j]) {
        lemma_csi_end_bounds(s, j + 1);
    }
}

/// `s[i..]` without its escapes: an escape followed by `[` drops itself and
/// the control sequence up to and including its first ASCII letter; any
/// other escape drops only itself.
pub open spec fn strip_from(s: Seq<char>, i: int) -> Seq<char>
    decreases s.len() - i,
{
    if 0 <= i < s.len() {
        if is_escape(s[i]) {
            if i + 1 < s.len() && s[i + 1] == '[' {
                proof {
                    lemma_csi_end_bounds(s, i + 2);
                }
                strip_from(s, csi_end(s, i + 2))
            } else {
                strip_from(s, i + 1)
            }
        } else {
            seq![s[i]] + strip_from(s, i + 1)
        }
    } else {
        Seq::empty()
    }
}

/// `s` without its ANSI escapes.
pub open spec fn stripped(s: Seq<char>) -> Seq<char> {
    strip_from(s, 0)
}

/// Removes ANSI escape sequences (colours and the like) from `input`.
pub fn strip_ansi(input: &str) -> (out: String)
    ensures
        out@ == stripped(input@),
{
    let s = chars_of(input);
    let mut out = String::new();
    let mut i: usize = 0;
    while i < s.len()
        invariant
            i <= s.len(),
            s@ == input@,
            stripped(s@) == out@ + strip_from(s@, i as int),
        decreases s.len() - i,
    {
        let c = s[i];
        if c == '\u{1b}' {
            if i + 1 < s.len() && s[i + 1] == '[' {
                let mut j: usize = i + 2;
                while j < s.len() && !is_alpha_char(s[j])
                    invariant
                        i + 2 <= j <= s.len(),
                        csi_end(s@, (i + 2) as int) == csi_end(s@, j as int),
                    decreases s.len() - j,
                {
                    j = j + 1;
                }
                if j < s.len() {
                    j = j + 1;
                }
                assert(csi_end(s@, (i + 2) as int) == j);
                i = j;
            } else {
                i = i + 1;
            }
        } else {
            let ghost before = out@;
            push_char(&mut out, c);
            assert(before + strip_from(s@, i as int) =~= out@ + strip_from(s@, i + 1));
            i = i + 1;
        }
    }
    assert(out@ + strip_from(s@, i as int) =~= out@);
    out
}

/// No escape is left in stripped text.
pub proof fn lemma_strip_from_no_escape(s: Seq<char>, i: int)
    ensures
        forall|k: int| 0 <= k < strip_from(s, i).len() ==> !is_escape(#[trigger] strip_from(s, i)[k]),
    decreases s.len() - i,
{
    if 0 <= i < s.len() {
        if is_escape(s[i]) {
            if i + 1 < s.len() && s[i + 1] == '[' {
                lemma_csi_end_bounds(s, i + 2);
                lemma_strip_from_no_escape(s, csi_end(s, i + 2));
                assert(strip_from(s, i) == strip_from(s, csi_end(s, i + 2)));
            } else {
                lemma_strip_from_no_escape(s, i + 1);
                assert(strip_from(s, i) == strip_from(s, i + 1));
            }
        } else {
            lemma_strip_from_no_escape(s, i + 1);
            let r = strip_from(s, i + 1);
            assert forall|k: int| 0 <= k < strip_from(s, i).len() implies !is_escape(
                #[trigger] strip_from(s, i)[k],
            ) by {
                if k > 0 {
                    assert(strip_from(s, i)[k] == r[k - 1]);
                }
            }
        }
    }
}

/// Text without escapes is left as it is.
pub proof fn lemma_strip_from_plain(s: Seq<char>, i: int)
    requires
        0 <= i <= s.len(),
        forall|k: int| i <= k < s.len() ==> !is_escape(#[trigger] s[k]),
    ensures
        strip_from(s, i) == s.subrange(i, s.len() as int),
    decreases s.len() - i,
{
    if i < s.len() {
        lemma_strip_from_plain(s, i + 1);
        assert(seq![s[i]] + s.subrange(i + 1, s.len() as int) =~= s.subrange(i, s.len() as int));
    } else {
        assert(s.subrange(i, s.len() as int) =~= Seq::<char>::empty());
    }
}

/// Stripping removes every escape, keeps escape-free text as it is, and so
/// stripping twice is stripping once.
pub proof fn lemma_strip_idempotent(s: Seq<char>)
    ensures
        forall|k: int| 0 <= k < stripped(s).len() ==> !is_escape(#[trigger] stripped(s)[k]),
        stripped(stripped(s)) == stripped(s),
        (forall|k: int| 0 <= k < s.len() ==> !is_escape(#[trigger] s[k])) ==> stripped(s) == s,
{
    lemma_strip_from_no_escape(s, 0);
    let t = stripped(s);
    lemma_strip_from_plain(t, 0);
    assert(t.subrange(0, t.len() as int) =~= t);
    if forall|k: int| 0 <= k < s.len() ==> !is_escape(#[trigger] s[k]) {
        lemma_strip_from_plain(s, 0);
        assert(s.subrange(0, s.len() as int) =~= s);
    }
}

// ---------------------------------------------------------------------------
// Reading a `WIDTHxHEIGHT` mode
// ---------------------------------------------------------------------------

/// Where the run of digits that ends at `j` starts: just after the last
/// character before `j` that is not an ASCII digit, or 0.
pub open spec fn digits_start(s: Seq<char>, j: int) -> int
    decreases j,
{
    if j <= 0 || j > s.len() {
        0
    } else if !is_digit(s[j - 1]) {
        j
    } else {
        digits_start(s, j - 1)
    }
}

/// Where the run of digits that starts at `i` ends.
pub open spec fn digits_end(s: Seq<char>, i: int) -> int
    decreases s.len() - i,
{
    if 0 <= i < s.len() && is_digit(s[i]) {
        digits_end(s, i + 1)
    } else {
        i
    }
}

/// The `WIDTHxHEIGHT` pair on a line: after trimming, the first `x`, the
/// digits right before it and the digits right after it, each read as an
/// unsigned 32-bit number.
pub open spec fn mode_size(line: Seq<char>) -> Option<(u32, u32)> {
    let t = trim(line);
    let x = find_from(t, 'x', 0);
    if x >= t.len() {
        None
    } else {
        let start = digits_start(t, x);
        let rest = t.subrange(x + 1, t.len() as int);
        let end = digits_end(rest, 0);
        match (
            parse_unsigned(t.subrange(start, x), u32::MAX as nat),
            parse_unsigned(rest.subrange(0, end), u32::MAX as nat),
        ) {
            (Some(w), Some(h)) => Some((w as u32, h as u32)),
            _ => None,
        }
    }
}

/// The lines on which reading a mode is defined: those where the character
/// just before the width's digits, if there is one, is ASCII. (The width is
/// cut out of the line at a byte offset one past that character, which is
/// not a character boundary for any other character.)
pub open spec fn mode_size_defined(line: Seq<char>) -> bool {
    let t = trim(line);
    let x = find_from(t, 'x', 0);
    x < t.len() ==> {
        let start = digits_start(t, x);
        start > 0 ==> (t[start - 1] as u32) < 128
    }
}

/// Reads the `WIDTHxHEIGHT` mode on one line of the listing, such as
/// `  1920x1080 @ 60.000 Hz (current)`.
pub fn parse_mode_size(line: &str) -> (r: Option<(u32, u32)>)
    requires
        mode_size_defined(line@),
    ensures
        r == mode_size(line@),
{
    parse_mode_size_chars(&chars_of(line))
}

fn parse_mode_size_chars(line: &Vec<char>) -> (r: Option<(u32, u32)>)
    ensures
        r == mode_size(line@),
{
    let t = trim_vec(line);
    let x = find_char(&t, 'x', 0);
    proof {
        lemma_find_from_bounds(t@, 'x', 0);
    }
    if x >= t.len() {
        return None;
    }
    let mut start: usize = x;
    while start > 0 && is_digit_char(t[start - 1])
        invariant
            start <= x < t.len(),
            digits_start(t@, x as int) == digits_start(t@, start as int),
        decreases start,
    {
        start = start - 1;
    }
    let width_digits = slice(&t, start, x);
    let rest = slice(&t, x + 1, t.len());
    let mut end: usize = 0;
    while end < rest.len() && is_digit_char(rest[end])
        invariant
            end <= rest.len(),
            digits_end(rest@, 0) == digits_end(rest@, end as int),
        decreases rest.len() - end,
    {
        end = end + 1;
    }
    let height_digits = slice(&rest, 0, end);
    let w = parse_unsigned_vec(&width_digits, 0xffff_ffff);
    let h = parse_unsigned_vec(&height_digits, 0xffff_ffff);
    match (w, h) {
        (Some(w), Some(h)) => Some((w as u32, h as u32)),
        _ => None,
    }
}

/// Whether reading a mode is defined on `line`.
fn mode_size_defined_chars(line: &Vec<char>) -> (r: bool)
    ensures
        r == mode_size_defined(line@),
{
    let t = trim_vec(line);
    let x = find_char(&t, 'x', 0);
    proof {
        lemma_find_from_bounds(t@, 'x', 0);
    }
    if x >= t.len() {
        return true;
    }
    let mut start: usize = x;
    while start > 0 && is_digit_char(t[start - 1])
        invariant
            start <= x < t.len(),
            digits_start(t@, x as int) == digits_start(t@, start as int),
        decreases start,
    {
        start = start - 1;
    }
    start == 0 || (t[start - 1] as u32) < 128
}

// ---------------------------------------------------------------------------
// The current mode in a listing
// ---------------------------------------------------------------------------

/// The width of the first line at or after `i` of `s` (lines end at `\n`)
/// that contains `(current)` and holds a mode.
pub open spec fn current_width_from(s: Seq<char>, i: int) -> Option<u32>
    decreases s.len() + 1 - i,
{
    if 0 <= i < s.len() {
        let e = find_from(s, '\n', i);
        let line = s.subrange(i, e);
        proof {
            lemma_find_from_bounds(s, '\n', i);
        }
        if contains(line, "(current)"@) && mode_size(line) is Some {
            Some((mode_size(line)->0).0)
        } else {
            current_width_from(s, e + 1)
        }
    } else {
        None
    }
}

/// Reading is defined on every line at or after `i` that contains
/// `(current)`, up to the first one that holds a mode.
pub open spec fn listing_defined_from(s: Seq<char>, i: int) -> bool
    decreases s.len() + 1 - i,
{
    if 0 <= i < s.len() {
        let e = find_from(s, '\n', i);
        let line = s.subrange(i, e);
        proof {
            lemma_find_from_bounds(s, '\n', i);
        }
        if contains(line, "(current)"@) {
            mode_size_defined(line) && (mode_size(line) is Some || listing_defined_from(s, e + 1))
        } else {
            listing_defined_from(s, e + 1)
        }
    } else {
        true
    }
}

/// The width of the current mode in a listing, escapes stripped first.
pub open spec fn listing_width(listing: Seq<char>) -> Option<u32> {
    current_width_from(stripped(listing), 0)
}

/// Reading the listing is defined on it.
pub open spec fn listing_defined(listing: Seq<char>) -> bool {
    listing_defined_from(stripped(listing), 0)
}

/// Scans the stripped listing `s` for the current mode. Returns whether
/// reading was defined up to the answer, and the answer.
fn scan_listing(s: &Vec<char>) -> (r: (bool, Option<u32>))
    ensures
        r.0 == listing_defined_from(s@, 0),
        r.0 ==> r.1 == current_width_from(s@, 0),
{
    let marker = chars_of("(current)");
    let mut i: usize = 0;
    while i < s.len()
        invariant
            i <= s.len(),
            marker@ == "(current)"@,
            listing_defined_from(s@, 0) == listing_defined_from(s@, i as int),
            current_width_from(s@, 0) == current_width_from(s@, i as int),
        decreases s.len() - i,
    {
        let e = find_char(s, '\n', i);
        proof {
            lemma_find_from_bounds(s@, '\n', i as int);
        }
        let line = slice(s, i, e);
        if contains_vec(&line, &marker) {
            if !mode_size_defined_chars(&line) {
                return (false, None);
            }
            if let Some((w, _)) = parse_mode_size_chars(&line) {
                return (true, Some(w));
            }
        }
        let next: usize = if e < s.len() {
            e + 1
        } else {
            e
        };
        assert(listing_defined_from(s@, next as int) == listing_defined_from(s@, e + 1));
        assert(current_width_from(s@, next as int) == current_width_from(s@, e + 1));
        i = next;
    }
    (true, None)
}

/// Whether reading `listing` is defined.
pub fn listing_is_defined(listing: &str) -> (r: bool)
    ensures
        r == listing_defined(listing@),
{
    let plain = chars_of(strip_ansi(listing).as_str());
    scan_listing(&plain).0
}

/// The width of the current mode in the text that `cosmic-randr list`
/// printed: escapes stripped, then the first line that contains `(current)`
/// and holds a `WIDTHxHEIGHT` mode; `None` when there is none.
pub fn current_mode_width(listing: &str) -> (r: Option<u32>)
    requires
        listing_defined(listing@),
    ensures
        r == listing_width(listing@),
{
    let plain = chars_of(strip_ansi(listing).as_str());
    scan_listing(&plain).1
}

/// What `String::from_utf8_lossy` gives for `bytes`: their UTF-8 decoding,
/// with U+FFFD in place of each invalid sequence.
pub uninterp spec fn lossy_utf8(bytes: Seq<u8>) -> Seq<char>;

/// Calls `String::from_utf8_lossy` and takes the text as an owned `String`.
/// Its result is `lossy_utf8` of the bytes, and for valid UTF-8 it is their
/// decoding; where the bytes are invalid, which replacement characters come
/// out is not stated.
#[verifier::external_body]
fn decode_lossy(bytes: &[u8]) -> (s: String)
    ensures
        s@ == lossy_utf8(bytes@),
        vstd::utf8::valid_utf8(bytes@) ==> s@ == vstd::utf8::decode_utf8(bytes@),
{
    String::from_utf8_lossy(bytes).into_owned()
}

/// The active output's width from a run of the listing program: `None` when
/// the run failed, when no current mode is listed, or when the listing holds
/// a line on which reading a mode is not defined (see [`mode_size_defined`])
/// before the answer.
pub fn active_output_width(succeeded: bool, stdout: &[u8]) -> (r: Option<u32>)
    ensures
        !succeeded ==> r is None,
        succeeded ==> r == (if listing_defined(lossy_utf8(stdout@)) {
            listing_width(lossy_utf8(stdout@))
        } else {
            None
        }),
{
    if !succeeded {
        return None;
    }
    let text = decode_lossy(stdout);
    if !listing_is_defined(text.as_str()) {
        return None;
    }
    current_mode_width(text.as_str())
}


// ---------------------------------------------------------------------------
// Laws of stripping
// ---------------------------------------------------------------------------

proof fn lemma_csi_end_shift(p: Seq<char>, t: Seq<char>, j: int)
    requires
        0 <= j <= t.len(),
    ensures
        csi_end(p + t, p.len() + j) == p.len() + csi_end(t, j),
    decreases t.len() - j,
{
    if j < t.len() {
        assert((p + t)[p.len() + j] == t[j]);
        if !is_alpha(t[j]) {
            lemma_csi_end_shift(p, t, j + 1);
        }
    }
}

/// Stripping `p + t` from a place inside `t` is stripping `t` from there.
proof fn lemma_strip_from_shift(p: Seq<char>, t: Seq<char>, j: int)
    requires
        0 <= j <= t.len(),
    ensures
        strip_from(p + t, p.len() + j) == strip_from(t, j),
    decreases t.len() - j,
{
    let s = p + t;
    let i = p.len() + j;
    if j < t.len() {
        assert(s[i] == t[j]);
        if is_escape(t[j]) {
            if j + 1 < t.len() && t[j + 1] == '[' {
                assert(s[i + 1] == t[j + 1]);
                lemma_csi_end_bounds(t, j + 2);
                lemma_csi_end_shift(p, t, j + 2);
                lemma_strip_from_shift(p, t, csi_end(t, j + 2));
            } else {
                if j + 1 < t.len() {
                    assert(s[i + 1] == t[j + 1]);
                }
                lemma_strip_from_shift(p, t, j + 1);
            }
        } else {
            lemma_strip_from_shift(p, t, j + 1);
        }
    }
}

/// A character other than an escape is kept, in front of the rest.
pub proof fn lemma_strip_keeps_plain_char(c: char, t: Seq<char>)
    requires
        !is_escape(c),
    ensures
        stripped(seq![c] + t) == seq![c] + stripped(t),
{
    let s = seq![c] + t;
    assert(s[0] == c);
    lemma_strip_from_shift(seq![c], t, 0);
}

/// Text without escapes is kept whole, in front of what follows it.
pub proof fn lemma_strip_keeps_plain_text(a: Seq<char>, t: Seq<char>)
    requires
        forall|k: int| 0 <= k < a.len() ==> !is_escape(#[trigger] a[k]),
    ensures
        stripped(a + t) == a + stripped(t),
    decreases a.len(),
{
    if a.len() > 0 {
        let rest = a.drop_first();
        assert forall|k: int| 0 <= k < rest.len() implies !is_escape(#[trigger] rest[k]) by {
            assert(rest[k] == a[k + 1]);
        }
        lemma_strip_keeps_plain_text(rest, t);
        assert(a + t =~= seq![a[0]] + (rest + t));
        lemma_strip_keeps_plain_char(a[0], rest + t);
        assert(seq![a[0]] + (rest + stripped(t)) =~= a + stripped(t));
    } else {
        assert(a + t =~= t);
        assert(a + stripped(t) =~= stripped(t));
    }
}

proof fn lemma_csi_end_is(s: Seq<char>, j: int, k: int)
    requires
        0 <= j <= k < s.len(),
        forall|m: int| j <= m < k ==> !is_alpha(#[trigger] s[m]),
        is_alpha(s[k]),
    ensures
        csi_end(s, j) == k + 1,
    decreases k - j,
{
    if j < k {
        lemma_csi_end_is(s, j + 1, k);
    }
}

/// A complete control sequence (escape, `[`, parameters without ASCII
/// letters, then one ASCII letter) is dropped whole, and everything after it
/// is stripped as if it stood alone.
pub proof fn lemma_strip_drops_control_sequence(params: Seq<char>, letter: char, t: Seq<char>)
    requires
        forall|k: int| 0 <= k < params.len() ==> !is_alpha(#[trigger] params[k]),
        is_alpha(letter),
    ensures
        stripped(seq!['\u{1b}', '['] + params + seq![letter] + t) == stripped(t),
{
    let p = seq!['\u{1b}', '['] + params + seq![letter];
    let s = p + t;
    let n = params.len() as int;
    assert(s[0] == '\u{1b}');
    assert(s[1] == '[');
    assert forall|m: int| 2 <= m < 2 + n implies !is_alpha(#[trigger] s[m]) by {
        assert(s[m] == params[m - 2]);
    }
    assert(s[2 + n] == letter);
    lemma_csi_end_is(s, 2, 2 + n);
    assert(p.len() == 3 + n);
    lemma_strip_from_shift(p, t, 0);
}

/// An escape that does not open a control sequence drops only itself.
pub proof fn lemma_strip_drops_lone_escape(t: Seq<char>)
    requires
        t.len() == 0 || t[0] != '[',
    ensures
        stripped(seq!['\u{1b}'] + t) == stripped(t),
{
    let s = seq!['\u{1b}'] + t;
    assert(s[0] == '\u{1b}');
    if t.len() > 0 {
        assert(s[1] == t[0]);
    }
    lemma_strip_from_shift(seq!['\u{1b}'], t, 0);
}

// ---------------------------------------------------------------------------
// Laws of the current mode
// ---------------------------------------------------------------------------

proof fn lemma_current_width_shift(p: Seq<char>, b: Seq<char>, j: int)
    requires
        0 <= j <= b.len() + 1,
    ensures
        current_width_from(p + b, p.len() + j) == current_width_from(b, j),
        listing_defined_from(p + b, p.len() + j) == listing_defined_from(b, j),
    decreases b.len() + 1 - j,
{
    if j < b.len() {
        let e = find_from(b, '\n', j);
        lemma_find_from_bounds(b, '\n', j);
        lemma_find_from_shift(p, b, '\n', j);
        assert((p + b).subrange(p.len() + j, p.len() + e) =~= b.subrange(j, e));
        lemma_current_width_shift(p, b, e + 1);
    }
}

/// The first line of `line + "\n" + rest` is `line`, and what follows it is `rest`.
proof fn lemma_first_line(line: Seq<char>, rest: Seq<char>)
    requires
        forall|k: int| 0 <= k < line.len() ==> #[trigger] line[k] != '\n',
    ensures
        find_from(line + seq!['\n'] + rest, '\n', 0) == line.len(),
        (line + seq!['\n'] + rest).subrange(0, line.len() as int) == line,
        current_width_from(line + seq!['\n'] + rest, line.len() as int + 1) == current_width_from(rest, 0),
        listing_defined_from(line + seq!['\n'] + rest, line.len() as int + 1) == listing_defined_from(
            rest,
            0,
        ),
{
    let p = line + seq!['\n'];
    let s = p + rest;
    assert forall|k: int| 0 <= k < line.len() implies #[trigger] s[k] != '\n' by {
        assert(s[k] == line[k]);
    }
    assert(s[line.len() as int] == '\n');
    lemma_find_from_is(s, '\n', 0, line.len() as int);
    assert(s.subrange(0, line.len() as int) =~= line);
    lemma_current_width_shift(p, rest, 0);
}

/// A line without `(current)` is passed over: it never gives the width,
/// and it never makes reading undefined.
pub proof fn lemma_non_current_line_skipped(line: Seq<char>, rest: Seq<char>)
    requires
        forall|k: int| 0 <= k < line.len() ==> #[trigger] line[k] != '\n',
        !contains(line, "(current)"@),
    ensures
        current_width_from(line + seq!['\n'] + rest, 0) == current_width_from(rest, 0),
        listing_defined_from(line + seq!['\n'] + rest, 0) == listing_defined_from(rest, 0),
{
    lemma_first_line(line, rest);
}

/// A `(current)` line without a mode is passed over too.
pub proof fn lemma_current_line_without_mode_skipped(line: Seq<char>, rest: Seq<char>)
    requires
        forall|k: int| 0 <= k < line.len() ==> #[trigger] line[k] != '\n',
        mode_size(line) is None,
    ensures
        current_width_from(line + seq!['\n'] + rest, 0) == current_width_from(rest, 0),
{
    lemma_first_line(line, rest);
}

/// The first `(current)` line with a `WIDTHxHEIGHT` mode gives the width,
/// whatever follows it.
pub proof fn lemma_current_line_gives_width(
    line: Seq<char>,
    rest: Seq<char>,
    width: u32,
    height: u32,
)
    requires
        forall|k: int| 0 <= k < line.len() ==> #[trigger] line[k] != '\n',
        contains(line, "(current)"@),
        mode_size(line) == Some((width, height)),
    ensures
        current_width_from(line + seq!['\n'] + rest, 0) == Some(width),
{
    lemma_first_line(line, rest);
}

/// A width found in a listing comes from one of its lines that contains
/// `(current)` and holds a mode of that width.
pub proof fn lemma_width_comes_from_current_line(s: Seq<char>, i: int)
    requires
        0 <= i,
    ensures
        current_width_from(s, i) matches Some(w) ==> exists|j: int|
            #![trigger find_from(s, '\n', j)]
            i <= j < s.len() && {
                let line = s.subrange(j, find_from(s, '\n', j));
                &&& contains(line, "(current)"@)
                &&& mode_size(line) matches Some((mw, _))
                &&& mw == w
            },
    decreases s.len() + 1 - i,
{
    if 0 <= i < s.len() {
        let e = find_from(s, '\n', i);
        lemma_find_from_bounds(s, '\n', i);
        let line = s.subrange(i, e);
        if !(contains(line, "(current)"@) && mode_size(line) is Some) {
            lemma_width_comes_from_current_line(s, e + 1);
        }
    }
}


// ---------------------------------------------------------------------------
// Laws of reading a mode
// ---------------------------------------------------------------------------

proof fn lemma_digits_start_is(s: Seq<char>, j: int, k: int)
    requires
        0 <= k <= j <= s.len(),
        forall|m: int| k <= m < j ==> is_digit(#[trigger] s[m]),
        k > 0 ==> !is_digit(s[k - 1]),
    ensures
        digits_start(s, j) == k,
    decreases j,
{
    if j > k {
        lemma_digits_start_is(s, j - 1, k);
    }
}

proof fn lemma_digits_end_is(s: Seq<char>, i: int, k: int)
    requires
        0 <= i <= k <= s.len(),
        forall|m: int| i <= m < k ==> is_digit(#[trigger] s[m]),
        k < s.len() ==> !is_digit(s[k]),
    ensures
        digits_end(s, i) == k,
    decreases k - i,
{
    if i < k {
        lemma_digits_end_is(s, i + 1, k);
    }
}

/// A line `p WIDTHxHEIGHT q`, where `p` holds no `x` and ends, if it is not
/// empty, with an ASCII character other than a digit, and `q` does not start
/// with a digit, reads as that width and height; reading it is defined.
pub proof fn lemma_mode_size_reads_mode(p: Seq<char>, w: u32, h: u32, q: Seq<char>)
    requires
        forall|k: int| 0 <= k < p.len() ==> #[trigger] p[k] != 'x',
        p.len() > 0 ==> !is_digit(p[p.len() - 1]) && (p[p.len() - 1] as u32) < 128,
        q.len() > 0 ==> !is_digit(q[0]),
        p.len() > 0 ==> !is_space(p[0]),
        q.len() > 0 ==> !is_space(q[q.len() - 1]),
    ensures
        mode_size(p + decimal(w as nat) + seq!['x'] + decimal(h as nat) + q) == Some((w, h)),
        mode_size_defined(p + decimal(w as nat) + seq!['x'] + decimal(h as nat) + q),
{
    let dw = decimal(w as nat);
    let dh = decimal(h as nat);
    lemma_decimal_digits(w as nat);
    lemma_decimal_digits(h as nat);
    lemma_parse_decimal(w as nat, u32::MAX as nat);
    lemma_parse_decimal(h as nat, u32::MAX as nat);
    let line = p + dw + seq!['x'] + dh + q;
    let a = p.len() as int;
    let x = a + dw.len();
    let b = x + 1 + dh.len();
    assert forall|k: int| 0 <= k < a implies #[trigger] line[k] == p[k] by {}
    assert forall|k: int| a <= k < x implies #[trigger] line[k] == dw[k - a] by {}
    assert(line[x] == 'x');
    assert forall|k: int| x < k < b implies #[trigger] line[k] == dh[k - x - 1] by {}
    assert forall|k: int| b <= k < line.len() implies #[trigger] line[k] == q[k - b] by {}
    // the line is its own trim
    if a > 0 {
        assert(line[0] == p[0]);
    } else {
        assert(line[0] == dw[0]);
    }
    if q.len() > 0 {
        assert(line[line.len() - 1] == q[q.len() - 1]);
    } else {
        assert(line[line.len() - 1] == dh[dh.len() - 1]);
    }
    lemma_trim_plain(line);
    // the first `x` is the one between the numbers
    assert forall|k: int| 0 <= k < x implies #[trigger] line[k] != 'x' by {
        if k >= a {
            assert(is_digit(dw[k - a]));
        }
    }
    lemma_find_from_is(line, 'x', 0, x);
    // the width's digits start right after `p`
    assert forall|m: int| a <= m < x implies is_digit(#[trigger] line[m]) by {}
    lemma_digits_start_is(line, x, a);
    assert(line.subrange(a, x) =~= dw);
    // the height's digits end where `q` starts
    let rest = line.subrange(x + 1, line.len() as int);
    assert forall|m: int| 0 <= m < dh.len() implies is_digit(#[trigger] rest[m]) by {
        assert(rest[m] == dh[m]);
    }
    if q.len() > 0 {
        assert(rest[dh.len() as int] == q[0]);
    }
    lemma_digits_end_is(rest, 0, dh.len() as int);
    assert(rest.subrange(0, dh.len() as int) =~= dh);
    if a > 0 {
        assert(line[a - 1] == p[a - 1]);
    }
}

} // verus!
