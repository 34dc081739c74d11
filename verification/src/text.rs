//! Characters and character sequences: the classes the scanners tell apart,
//! trimming, and the passage between strings and slices of characters.

use vstd::prelude::*;
use vstd::slice::slice_subrange;

verus! {

/// An ASCII letter.
pub open spec fn is_letter(c: char) -> bool {
    ('a' <= c && c <= 'z') || ('A' <= c && c <= 'Z')
}

/// An ASCII decimal digit.
pub open spec fn is_digit(c: char) -> bool {
    '0' <= c && c <= '9'
}

/// A character that may begin an identifier.
pub open spec fn is_ident_start(c: char) -> bool {
    is_letter(c) || c == '_'
}

/// A character that may continue an identifier.
pub open spec fn is_ident_char(c: char) -> bool {
    is_letter(c) || is_digit(c) || c == '_'
}

/// Blank, tab, carriage return or line feed: the space that may separate the
/// parts of a directive or of a call.
pub open spec fn is_space(c: char) -> bool {
    c == ' ' || c == '\t' || c == '\r' || c == '\n'
}

/// A character with the Unicode property `White_Space`: what trimming removes
/// from the two ends of a text.
pub open spec fn is_blank(c: char) -> bool {
    ('\u{9}' <= c && c <= '\u{d}') || c == ' ' || c == '\u{85}' || c == '\u{a0}' || c
        == '\u{1680}' || ('\u{2000}' <= c && c <= '\u{200a}') || c == '\u{2028}' || c
        == '\u{2029}' || c == '\u{202f}' || c == '\u{205f}' || c == '\u{3000}'
}

/// Whether `c` may begin an identifier.
pub fn ident_start(c: char) -> (r: bool)
    ensures
        r == is_ident_start(c),
{
    ('a' <= c && c <= 'z') || ('A' <= c && c <= 'Z') || c == '_'
}

/// Whether `c` may continue an identifier.
pub fn ident_char(c: char) -> (r: bool)
    ensures
        r == is_ident_char(c),
{
    ('a' <= c && c <= 'z') || ('A' <= c && c <= 'Z') || ('0' <= c && c <= '9') || c == '_'
}

/// Whether `c` is a blank, a tab, a carriage return or a line feed.
pub fn space(c: char) -> (r: bool)
    ensures
        r == is_space(c),
{
    c == ' ' || c == '\t' || c == '\r' || c == '\n'
}

/// Whether `c` is one of the characters that trimming removes.
pub fn blank(c: char) -> (r: bool)
    ensures
        r == is_blank(c),
{
    ('\u{9}' <= c && c <= '\u{d}') || c == ' ' || c == '\u{85}' || c == '\u{a0}' || c
        == '\u{1680}' || ('\u{2000}' <= c && c <= '\u{200a}') || c == '\u{2028}' || c
        == '\u{2029}' || c == '\u{202f}' || c == '\u{205f}' || c == '\u{3000}'
}

/// The first index at or after `i` whose character is not blank (the length
/// of `s` if there is none).
pub open spec fn blank_run_end(s: Seq<char>, i: int) -> int
    decreases s.len() - i,
{
    if 0 <= i < s.len() && is_blank(s[i]) {
        blank_run_end(s, i + 1)
    } else {
        i
    }
}

/// The least `k` in `lo ..= j` such that every character of `s` in `k .. j`
/// is blank.
pub open spec fn blank_run_start(s: Seq<char>, lo: int, j: int) -> int
    decreases j,
{
    if lo < j <= s.len() && 0 < j && is_blank(s[j - 1]) {
        blank_run_start(s, lo, j - 1)
    } else {
        j
    }
}

/// `s` without the blank characters at its two ends.
pub open spec fn trimmed(s: Seq<char>) -> Seq<char> {
    let a = blank_run_end(s, 0);
    s.subrange(a, blank_run_start(s, a, s.len() as int))
}

proof fn lemma_blank_run_end(s: Seq<char>, i: int)
    requires
        0 <= i <= s.len(),
    ensures
        i <= blank_run_end(s, i) <= s.len(),
        forall|k: int| i <= k < blank_run_end(s, i) ==> is_blank(#[trigger] s[k]),
        blank_run_end(s, i) < s.len() ==> !is_blank(s[blank_run_end(s, i)]),
    decreases s.len() - i,
{
    if i < s.len() && is_blank(s[i]) {
        lemma_blank_run_end(s, i + 1);
    }
}

proof fn lemma_blank_run_start(s: Seq<char>, lo: int, j: int)
    requires
        0 <= lo <= j <= s.len(),
    ensures
        lo <= blank_run_start(s, lo, j) <= j,
        forall|k: int| blank_run_start(s, lo, j) <= k < j ==> is_blank(#[trigger] s[k]),
        lo < blank_run_start(s, lo, j) ==> !is_blank(s[blank_run_start(s, lo, j) - 1]),
    decreases j,
{
    if lo < j && is_blank(s[j - 1]) {
        lemma_blank_run_start(s, lo, j - 1);
    }
}

/// A trimmed text is the part of the text between two runs of blanks that
/// reach to its ends, and neither begins nor ends with a blank.
pub proof fn lemma_trimmed(s: Seq<char>)
    ensures
        exists|a: int, b: int|
            0 <= a <= b <= s.len() && #[trigger] s.subrange(a, b) == trimmed(s) && (forall|k: int|
                0 <= k < a ==> is_blank(#[trigger] s[k])) && (forall|k: int|
                b <= k < s.len() ==> is_blank(#[trigger] s[k])),
        trimmed(s).len() > 0 ==> !is_blank(trimmed(s).first()) && !is_blank(trimmed(s).last()),
        trimmed(s).len() <= s.len(),
{
    let a = blank_run_end(s, 0);
    lemma_blank_run_end(s, 0);
    let b = blank_run_start(s, a, s.len() as int);
    lemma_blank_run_start(s, a, s.len() as int);
    assert(s.subrange(a, b) == trimmed(s));
}

/// The part of `s` that is left when the blank characters at its two ends are
/// taken away.
pub fn trim(s: &[char]) -> (r: &[char])
    ensures
        r@ == trimmed(s@),
{
    let n = s.len();
    let mut a: usize = 0;
    while a < n && blank(s[a])
        invariant
            a <= n,
            n == s@.len(),
            blank_run_end(s@, 0) == blank_run_end(s@, a as int),
        decreases n - a,
    {
        a += 1;
    }
    let mut b: usize = n;
    while a < b && blank(s[b - 1])
        invariant
            a <= b <= n,
            n == s@.len(),
            blank_run_start(s@, a as int, n as int) == blank_run_start(s@, a as int, b as int),
        decreases b,
    {
        b -= 1;
    }
    slice_subrange(s, a, b)
}

/// The characters of a string, in order.
pub fn chars_of(s: &str) -> (v: Vec<char>)
    ensures
        v@ == s@,
{
    let mut v: Vec<char> = Vec::new();
    for c in it: s.chars()
        invariant
            v@ == it.seq().take(it.index()),
    {
        v.push(c);
    }
    v
}

/// `String::push` of the standard library appends the one character to the
/// string and leaves what was there in place.
pub assume_specification[ String::push ](s: &mut String, c: char)
    ensures
        final(s)@ == old(s)@.push(c),
;

/// The string made of the given characters, in order.
pub fn text_of(chars: &[char]) -> (r: String)
    ensures
        r@ == chars@,
{
    let mut r = String::new();
    let mut i: usize = 0;
    while i < chars.len()
        invariant
            i <= chars.len(),
            r@ == chars@.take(i as int),
        decreases chars.len() - i,
    {
        r.push(chars[i]);
        i += 1;
    }
    r
}

/// Appends the characters of `more` to `v`.
pub fn append_chars(v: &mut Vec<char>, more: &[char])
    ensures
        final(v)@ == old(v)@ + more@,
{
    let mut i: usize = 0;
    while i < more.len()
        invariant
            i <= more.len(),
            v@ == old(v)@ + more@.take(i as int),
        decreases more.len() - i,
    {
        v.push(more[i]);
        i += 1;
    }
}

} // verus!
