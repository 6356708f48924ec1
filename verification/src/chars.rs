//! Character-level helpers: case folding, white space, trimming and
//! splitting of text.

use vstd::prelude::*;
use vstd::utf8::is_ascii_chars;
use crate::text::{split, views};

verus! {

/// The lower-case form of a text, as the standard library's Unicode case
/// mapping defines it. It is not spelled out here; for ASCII text see
/// [`ascii_lowercase`].
pub uninterp spec fn lowercase(s: Seq<char>) -> Seq<char>;

/// Whether a character has the Unicode property `White_Space`, as the
/// standard library decides it. It is not spelled out here; for ASCII
/// characters see [`ascii_space`].
pub uninterp spec fn white_space(c: char) -> bool;

/// The lower-case form of an ASCII character: the letters `A` to `Z` become
/// `a` to `z`, every other character stays.
pub open spec fn ascii_lower(c: char) -> char {
    if 'A' <= c && c <= 'Z' {
        ((c as u32) + 32) as char
    } else {
        c
    }
}

/// The lower-case form of ASCII text, character by character.
pub open spec fn ascii_lowercase(s: Seq<char>) -> Seq<char> {
    Seq::new(s.len(), |i: int| ascii_lower(s[i]))
}

/// The white space among the ASCII characters: the space, and the five
/// characters from horizontal tab to carriage return.
pub open spec fn ascii_space(c: char) -> bool {
    c == ' ' || ('\u{9}' <= c && c <= '\u{d}')
}

/// The lower-case form of a text. For ASCII text it is spelled out; for any
/// other text it is what the standard library gives.
pub open spec fn fold(s: Seq<char>) -> Seq<char> {
    if is_ascii_chars(s) {
        ascii_lowercase(s)
    } else {
        lowercase(s)
    }
}

/// Whether a character is white space. For ASCII characters it is spelled
/// out; for any other character it is what the standard library decides.
pub open spec fn space(c: char) -> bool {
    if c <= '\u{7f}' {
        ascii_space(c)
    } else {
        white_space(c)
    }
}

/// Trusted: `str::to_lowercase`. Its result is given the name
/// [`lowercase`]. Of ASCII text it changes the letters `A` to `Z` to `a`
/// to `z` and nothing else.
#[verifier::external_body]
pub(crate) fn to_lowercase(s: &str) -> (r: String)
    ensures
        r@ == lowercase(s@),
        is_ascii_chars(s@) ==> r@ == ascii_lowercase(s@),
{
    s.to_lowercase()
}

/// Trusted: `char::is_whitespace`. Its result is given the name
/// [`white_space`]. Of the ASCII characters it holds for the space and for
/// the characters from horizontal tab to carriage return, and for no other.
#[verifier::external_body]
pub(crate) fn is_whitespace(c: char) -> (b: bool)
    ensures
        b == white_space(c),
        c <= '\u{7f}' ==> b == ascii_space(c),
{
    c.is_whitespace()
}

/// The lower-case form of `s`.
pub fn fold_text(s: &str) -> (r: String)
    ensures
        r@ == fold(s@),
{
    to_lowercase(s)
}

/// Whether `c` is white space.
pub fn is_space(c: char) -> (b: bool)
    ensures
        b == space(c),
{
    is_whitespace(c)
}

/// The characters of `s`, in order.
pub fn chars_of(s: &str) -> (v: Vec<char>)
    ensures
        v@ == s@,
{
    let mut v: Vec<char> = Vec::new();
    for c in it: s.chars()
        invariant
            v@ == it.seq().take(it.index() as int),
            it.seq() == s@,
    {
        v.push(c);
    }
    v
}

/// For each character of `s`, whether it is white space.
pub open spec fn spaces(s: Seq<char>) -> Seq<bool> {
    Seq::new(s.len(), |i: int| space(s[i]))
}

/// How many marks are set at the start, up to the first that is not.
pub open spec fn leading(marks: Seq<bool>) -> nat
    decreases marks.len(),
{
    if marks.len() > 0 && marks[0] {
        1 + leading(marks.drop_first())
    } else {
        0
    }
}

/// How many marks are set at the end, back to the last that is not.
pub open spec fn trailing(marks: Seq<bool>) -> nat
    decreases marks.len(),
{
    if marks.len() > 0 && marks.last() {
        1 + trailing(marks.drop_last())
    } else {
        0
    }
}

/// The bounds of what is left of a text when the marked characters at its
/// start are dropped, and then those at its end.
pub open spec fn unmarked(marks: Seq<bool>) -> (int, int) {
    let lo = leading(marks) as int;
    (lo, marks.len() - trailing(marks.skip(lo)))
}

/// `s` without its leading and trailing white space.
pub open spec fn trim(s: Seq<char>) -> Seq<char> {
    let (lo, hi) = unmarked(spaces(s));
    s.subrange(lo, hi)
}

/// No more marks are set at the start or at the end than there are marks.
pub proof fn lemma_marks_bounded(marks: Seq<bool>)
    ensures
        leading(marks) <= marks.len(),
        trailing(marks) <= marks.len(),
    decreases marks.len(),
{
    if marks.len() > 0 {
        lemma_marks_bounded(marks.drop_first());
        lemma_marks_bounded(marks.drop_last());
    }
}

/// What [`trim`] leaves is a stretch of the text.
pub proof fn lemma_trim_is_stretch(s: Seq<char>)
    ensures
        0 <= unmarked(spaces(s)).0 <= unmarked(spaces(s)).1 <= s.len(),
        forall|j: int| 0 <= j < trim(s).len() ==> s.contains(#[trigger] trim(s)[j]),
{
    let marks = spaces(s);
    let lo = leading(marks) as int;
    lemma_marks_bounded(marks);
    lemma_marks_bounded(marks.skip(lo));
    let hi = unmarked(marks).1;
    assert forall|j: int| 0 <= j < trim(s).len() implies s.contains(#[trigger] trim(s)[j]) by {
        assert(trim(s)[j] == s[lo + j]);
    }
}

/// A text that neither begins nor ends with white space is left as it is.
pub proof fn lemma_trim_nothing(s: Seq<char>)
    requires
        s.len() > 0,
        !space(s[0]),
        !space(s.last()),
    ensures
        trim(s) == s,
{
    let marks = spaces(s);
    assert(!marks[0]);
    assert(!marks.last());
    assert(leading(marks) == 0);
    assert(marks.skip(0) =~= marks);
    assert(trailing(marks) == 0);
    assert(s.subrange(0, s.len() as int) =~= s);
}

/// Marks the white space of `s`.
pub fn mark_spaces(s: &Vec<char>) -> (marks: Vec<bool>)
    ensures
        marks@ == spaces(s@),
{
    let mut marks: Vec<bool> = Vec::new();
    let mut i: usize = 0;
    while i < s.len()
        invariant
            i <= s@.len(),
            marks@.len() == i,
            forall|j: int| 0 <= j < i ==> marks@[j] == space(s@[j]),
        decreases s@.len() - i,
    {
        marks.push(is_space(s[i]));
        i = i + 1;
    }
    assert(marks@ =~= spaces(s@));
    marks
}

/// The bounds of what is left when the marked positions at the start are
/// dropped, and then those at the end.
pub fn unmarked_range(marks: &Vec<bool>) -> (r: (usize, usize))
    ensures
        r.0 <= r.1 <= marks@.len(),
        (r.0 as int, r.1 as int) == unmarked(marks@),
{
    let n = marks.len();
    let mut lo: usize = 0;
    assert(marks@.skip(0) =~= marks@);
    while lo < n && marks[lo]
        invariant
            lo <= n,
            n == marks@.len(),
            leading(marks@) == lo + leading(marks@.skip(lo as int)),
        decreases n - lo,
    {
        assert(marks@.skip(lo as int).drop_first() =~= marks@.skip(lo + 1));
        lo = lo + 1;
    }
    let ghost rest = marks@.skip(lo as int);
    assert(leading(marks@) == lo);
    let mut hi: usize = n;
    assert(marks@.subrange(lo as int, n as int) =~= rest);
    while hi > lo && marks[hi - 1]
        invariant
            lo <= hi <= n,
            n == marks@.len(),
            trailing(rest) == (n - hi) + trailing(marks@.subrange(lo as int, hi as int)),
        decreases hi,
    {
        assert(marks@.subrange(lo as int, hi as int).drop_last() =~= marks@.subrange(
            lo as int,
            hi - 1,
        ));
        hi = hi - 1;
    }
    (lo, hi)
}

/// The bounds of `s` without its leading and trailing white space: the
/// trimmed text is `s[lo..hi]`.
pub fn trim_bounds(s: &Vec<char>) -> (r: (usize, usize))
    ensures
        r.0 <= r.1 <= s@.len(),
        s@.subrange(r.0 as int, r.1 as int) == trim(s@),
{
    let marks = mark_spaces(s);
    unmarked_range(&marks)
}

/// Whether the characters `a[lo..hi]` are the characters of `b`.
pub(crate) fn same_chars(a: &Vec<char>, lo: usize, hi: usize, b: &Vec<char>) -> (r: bool)
    requires
        lo <= hi <= a@.len(),
    ensures
        r == (a@.subrange(lo as int, hi as int) == b@),
{
    if hi - lo != b.len() {
        return false;
    }
    let mut i: usize = 0;
    while i < b.len()
        invariant
            lo <= hi <= a@.len(),
            hi - lo == b@.len(),
            i <= b@.len(),
            forall|j: int| 0 <= j < i ==> a@[lo + j] == b@[j],
        decreases b@.len() - i,
    {
        if a[lo + i] != b[i] {
            assert(a@.subrange(lo as int, hi as int)[i as int] != b@[i as int]);
            return false;
        }
        i = i + 1;
    }
    assert(a@.subrange(lo as int, hi as int) =~= b@);
    true
}

/// True when `s` begins with `prefix`.
pub open spec fn starts_with(s: Seq<char>, prefix: Seq<char>) -> bool {
    prefix.len() <= s.len() && s.subrange(0, prefix.len() as int) == prefix
}

/// Whether the text `s` is `literal`.
pub fn text_is(s: &Vec<char>, literal: &str) -> (r: bool)
    ensures
        r == (s@ == literal@),
{
    let wanted = chars_of(literal);
    assert(s@.subrange(0, s@.len() as int) =~= s@);
    same_chars(s, 0, s.len(), &wanted)
}

/// Whether the text `s` begins with `prefix`.
pub fn begins_with(s: &Vec<char>, prefix: &str) -> (r: bool)
    ensures
        r == starts_with(s@, prefix@),
{
    let wanted = chars_of(prefix);
    if wanted.len() > s.len() {
        return false;
    }
    same_chars(s, 0, wanted.len(), &wanted)
}

/// Splits `s` at every occurrence of `sep`.
pub fn split_chars(s: &Vec<char>, sep: char) -> (parts: Vec<Vec<char>>)
    ensures
        views(parts@) == split(s@, sep),
{
    let mut parts: Vec<Vec<char>> = Vec::new();
    let mut piece: Vec<char> = Vec::new();
    let mut i: usize = 0;
    while i < s.len()
        invariant
            i <= s@.len(),
            views(parts@).push(piece@) == split(s@.take(i as int), sep),
        decreases s@.len() - i,
    {
        let c = s[i];
        let ghost before = views(parts@);
        let ghost cur = piece@;
        assert(s@.take(i + 1).drop_last() =~= s@.take(i as int));
        if c == sep {
            parts.push(piece);
            piece = Vec::new();
            assert(views(parts@) =~= before.push(cur));
        } else {
            piece.push(c);
            assert(before.push(cur).drop_last() =~= before);
        }
        i = i + 1;
    }
    assert(s@.take(i as int) =~= s@);
    let ghost before = views(parts@);
    parts.push(piece);
    assert(views(parts@) =~= before.push(piece@));
    parts
}

} // verus!
