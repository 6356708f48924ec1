//! Byte-level text helpers shared by the request parser and the response
//! serialiser: decimal numbers, separators and sub-sequence search.

use vstd::prelude::*;
use vstd::utf8::valid_utf8;
use crate::encoding::lemma_delimited_valid;

verus! {

/// Carriage return.
pub const CR: u8 = 13;

/// Line feed.
pub const LF: u8 = 10;

/// Space.
pub const SP: u8 = 32;

/// Colon.
pub const COLON: u8 = 58;

/// Plus sign.
pub const PLUS: u8 = 43;

/// The ASCII digit that stands for `d`, for `d < 10`.
pub open spec fn digit(d: nat) -> u8 {
    (48 + d) as u8
}

/// The decimal rendering of `n`, most significant digit first, with no
/// leading zeros (`0` itself is rendered as one digit).
pub open spec fn decimal(n: nat) -> Seq<u8>
    decreases n,
{
    if n < 10 {
        seq![digit(n)]
    } else {
        decimal(n / 10).push(digit(n % 10))
    }
}

/// Appends the decimal rendering of `n` to `out`.
pub fn push_decimal(out: &mut Vec<u8>, n: usize)
    ensures
        final(out)@ == old(out)@ + decimal(n as nat),
    decreases n,
{
    if n >= 10 {
        push_decimal(out, n / 10);
    }
    let d: u8 = (n % 10) as u8;
    out.push(48 + d);
    assert(out@ =~= old(out)@ + decimal(n as nat));
}

/// True for the ASCII digits `0` to `9`.
pub open spec fn is_digit(b: u8) -> bool {
    48 <= b <= 57
}

/// True when every byte of `s` is an ASCII digit.
pub open spec fn all_digits(s: Seq<u8>) -> bool {
    forall|i: int| 0 <= i < s.len() ==> is_digit(#[trigger] s[i])
}

/// The number that a sequence of ASCII digits denotes in base ten.
pub open spec fn digits_value(s: Seq<u8>) -> nat
    decreases s.len(),
{
    if s.len() == 0 {
        0
    } else {
        digits_value(s.drop_last()) * 10 + (s.last() - 48) as nat
    }
}

/// `s` without one leading plus sign, if it has one.
pub open spec fn unsigned(s: Seq<u8>) -> Seq<u8> {
    if s.len() > 0 && s[0] == PLUS {
        s.drop_first()
    } else {
        s
    }
}

/// The non-negative integer that `s` denotes: an optional plus sign followed
/// by one or more ASCII digits. Anything else denotes no number.
pub open spec fn parse_decimal(s: Seq<u8>) -> Option<nat> {
    let d = unsigned(s);
    if d.len() > 0 && all_digits(d) {
        Some(digits_value(d))
    } else {
        None
    }
}

/// A prefix of a digit string never denotes more than the whole string.
pub proof fn lemma_digits_value_monotonic(s: Seq<u8>, k: int)
    requires
        0 <= k <= s.len(),
    ensures
        digits_value(s.take(k)) <= digits_value(s),
    decreases s.len() - k,
{
    if k == s.len() {
        assert(s.take(k) =~= s);
    } else {
        lemma_digits_value_monotonic(s.drop_last(), k);
        assert(s.drop_last().take(k) =~= s.take(k));
    }
}

/// Every byte of a decimal rendering is a digit.
pub proof fn lemma_decimal_digits(n: nat)
    ensures
        decimal(n).len() > 0,
        all_digits(decimal(n)),
    decreases n,
{
    if n >= 10 {
        lemma_decimal_digits(n / 10);
    }
}

/// Parsing the decimal rendering of a number gives the number back.
pub proof fn lemma_parse_decimal_of_decimal(n: nat)
    ensures
        parse_decimal(decimal(n)) == Some(n),
    decreases n,
{
    lemma_decimal_digits(n);
    assert(is_digit(decimal(n)[0]));
    lemma_digits_value_of_decimal(n);
}

proof fn lemma_digits_value_of_decimal(n: nat)
    ensures
        digits_value(decimal(n)) == n,
    decreases n,
{
    if n < 10 {
        assert(decimal(n).drop_last() =~= Seq::<u8>::empty());
        assert(digits_value(decimal(n)) == digits_value(decimal(n).drop_last()) * 10 + (decimal(
            n,
        ).last() - 48) as nat);
    } else {
        lemma_digits_value_of_decimal(n / 10);
        assert(decimal(n).drop_last() =~= decimal(n / 10));
    }
}

/// Reads a non-negative decimal integer as [`parse_decimal`] defines it.
/// Returns `None` when `s` denotes no number, or one that does not fit.
pub fn parse_usize(s: &[u8]) -> (r: Option<usize>)
    ensures
        r == match parse_decimal(s@) {
            Some(v) => if v <= usize::MAX {
                Some(v as usize)
            } else {
                None
            },
            None => None,
        },
{
    let n = s.len();
    let start: usize = if n > 0 && s[0] == PLUS {
        1
    } else {
        0
    };
    let ghost d = unsigned(s@);
    assert(d =~= s@.subrange(start as int, n as int));
    if start == n {
        return None;
    }
    let mut acc: usize = 0;
    let mut i: usize = start;
    while i < n
        invariant
            start <= i <= n,
            n == s@.len(),
            d == unsigned(s@),
            d == s@.subrange(start as int, n as int),
            all_digits(d.take(i - start)),
            acc == digits_value(d.take(i - start)),
        decreases n - i,
    {
        let b = s[i];
        if b < 48 || b > 57 {
            assert(!is_digit(d[i - start]));
            return None;
        }
        let v: usize = (b - 48) as usize;
        proof {
            let next = d.take(i - start + 1);
            assert(next.drop_last() =~= d.take(i - start));
            assert(next.last() == b);
            assert(digits_value(next) == acc * 10 + v);
            assert forall|j: int| 0 <= j < next.len() implies is_digit(#[trigger] next[j]) by {
                if j < i - start {
                    assert(d.take(i - start)[j] == next[j]);
                }
            }
        }
        if acc > (usize::MAX - v) / 10 {
            proof {
                lemma_digits_value_monotonic(d, i - start + 1);
            }
            return None;
        }
        acc = acc * 10 + v;
        i = i + 1;
    }
    assert(d.take(i - start) =~= d);
    Some(acc)
}

/// True when the byte `a` stands at index `i` of `s` and `b` right after it.
pub open spec fn pair_at(s: Seq<u8>, a: u8, b: u8, i: int) -> bool {
    0 <= i && i + 1 < s.len() && s[i] == a && s[i + 1] == b
}

/// The least index at or after `from` where the pair `a`, `b` stands in `s`.
pub open spec fn find_pair(s: Seq<u8>, a: u8, b: u8, from: int) -> Option<int>
    decreases s.len() - from,
{
    if from < 0 || from + 1 >= s.len() {
        None
    } else if pair_at(s, a, b, from) {
        Some(from)
    } else {
        find_pair(s, a, b, from + 1)
    }
}

/// What [`find_pair`] returns is the first place at or after `from` where the
/// pair stands, and it returns `None` only where it stands nowhere.
pub proof fn lemma_find_pair(s: Seq<u8>, a: u8, b: u8, from: int)
    requires
        0 <= from,
    ensures
        match find_pair(s, a, b, from) {
            Some(i) => from <= i && pair_at(s, a, b, i) && forall|j: int|
                from <= j < i ==> !pair_at(s, a, b, j),
            None => forall|j: int| from <= j ==> !pair_at(s, a, b, j),
        },
    decreases s.len() - from,
{
    if from + 1 < s.len() && !pair_at(s, a, b, from) {
        lemma_find_pair(s, a, b, from + 1);
    }
}

/// The first place at or after `from` where the pair stands is what
/// [`find_pair`] returns.
pub proof fn lemma_find_pair_is(s: Seq<u8>, a: u8, b: u8, from: int, i: int)
    requires
        0 <= from <= i,
        pair_at(s, a, b, i),
        forall|j: int| from <= j < i ==> !pair_at(s, a, b, j),
    ensures
        find_pair(s, a, b, from) == Some(i),
{
    lemma_find_pair(s, a, b, from);
}

/// Finds the first place at or after `from` where `a` is followed by `b`.
pub fn index_of_pair(s: &[u8], a: u8, b: u8, from: usize) -> (r: Option<usize>)
    ensures
        match r {
            Some(i) => find_pair(s@, a, b, from as int) == Some(i as int) && from <= i && i + 1
                < s@.len(),
            None => find_pair(s@, a, b, from as int) is None,
        },
{
    let n = s.len();
    let mut i: usize = from;
    while i < n && i + 1 < n
        invariant
            from <= i,
            n == s@.len(),
            find_pair(s@, a, b, from as int) == find_pair(s@, a, b, i as int),
        decreases n - i,
    {
        if s[i] == a && s[i + 1] == b {
            return Some(i);
        }
        i = i + 1;
    }
    None
}

/// The pieces of `s` between occurrences of `sep`, in order. There is always
/// one piece more than there are separators, and pieces may be empty.
pub open spec fn split<T>(s: Seq<T>, sep: T) -> Seq<Seq<T>>
    decreases s.len(),
{
    if s.len() == 0 {
        seq![Seq::empty()]
    } else {
        let before = split(s.drop_last(), sep);
        if s.last() == sep {
            before.push(Seq::empty())
        } else {
            before.drop_last().push(before.last().push(s.last()))
        }
    }
}

/// Every element of a piece is an element of what was split.
pub proof fn lemma_split_elements<T>(s: Seq<T>, sep: T)
    ensures
        forall|k: int, j: int|
            0 <= k < split(s, sep).len() && 0 <= j < split(s, sep)[k].len() ==> s.contains(
                #[trigger] split(s, sep)[k][j],
            ),
    decreases s.len(),
{
    let parts = split(s, sep);
    if s.len() > 0 {
        let shorter = s.drop_last();
        let before = split(shorter, sep);
        lemma_split_elements(shorter, sep);
        lemma_split_pieces(shorter, sep);
        assert forall|k: int, j: int|
            0 <= k < parts.len() && 0 <= j < parts[k].len() implies s.contains(
            #[trigger] parts[k][j],
        ) by {
            if s.last() != sep && k == parts.len() - 1 && j == parts[k].len() - 1 {
                assert(parts[k][j] == s[s.len() - 1]);
            } else {
                assert(parts[k][j] == before[k][j]);
                assert(shorter.contains(before[k][j]));
                let i = choose|i: int| 0 <= i < shorter.len() && shorter[i] == before[k][j];
                assert(s[i] == before[k][j]);
            }
        }
    }
}

/// A split has at least one piece.
pub proof fn lemma_split_pieces<T>(s: Seq<T>, sep: T)
    ensures
        split(s, sep).len() >= 1,
    decreases s.len(),
{
    if s.len() > 0 {
        lemma_split_pieces(s.drop_last(), sep);
    }
}

/// What holds no separator is one piece.
pub proof fn lemma_split_whole<T>(s: Seq<T>, sep: T)
    requires
        !s.contains(sep),
    ensures
        split(s, sep) == seq![s],
    decreases s.len(),
{
    if s.len() > 0 {
        let shorter = s.drop_last();
        assert(!shorter.contains(sep)) by {
            if shorter.contains(sep) {
                let i = choose|i: int| 0 <= i < shorter.len() && shorter[i] == sep;
                assert(s[i] == sep);
            }
        }
        assert(s[s.len() - 1] != sep);
        lemma_split_whole(shorter, sep);
        assert(shorter.push(s.last()) =~= s);
        assert(split(s, sep) =~= seq![s]);
    } else {
        assert(s =~= Seq::<T>::empty());
    }
}

/// What stands before the first separator is the first piece.
pub proof fn lemma_split_first<T>(first: Seq<T>, sep: T, rest: Seq<T>)
    requires
        !first.contains(sep),
    ensures
        split(first + seq![sep] + rest, sep).len() >= 2,
        split(first + seq![sep] + rest, sep)[0] == first,
    decreases rest.len(),
{
    let s = first + seq![sep] + rest;
    if rest.len() == 0 {
        assert(s.drop_last() =~= first);
        lemma_split_whole(first, sep);
    } else {
        assert(s.drop_last() =~= first + seq![sep] + rest.drop_last());
        lemma_split_first(first, sep, rest.drop_last());
    }
}

/// The contents of each vector of `v`, in order.
pub open spec fn views<T>(v: Seq<Vec<T>>) -> Seq<Seq<T>> {
    Seq::new(v.len(), |i: int| v[i]@)
}

/// Splits `s` at every occurrence of `sep`. Where `s` is UTF-8 and `sep` is
/// an ASCII byte, every piece is UTF-8 too.
pub fn split_bytes(s: &[u8], sep: u8) -> (parts: Vec<Vec<u8>>)
    ensures
        views(parts@) == split(s@, sep),
        valid_utf8(s@) && sep < 128 ==> forall|k: int|
            0 <= k < parts@.len() ==> valid_utf8(#[trigger] parts@[k]@),
{
    let mut parts: Vec<Vec<u8>> = Vec::new();
    let mut piece: Vec<u8> = Vec::new();
    let mut i: usize = 0;
    let ghost mut start: int = 0;
    while i < s.len()
        invariant
            0 <= start <= i <= s@.len(),
            start == 0 || s@[start - 1] == sep,
            piece@ == s@.subrange(start, i as int),
            views(parts@).push(piece@) == split(s@.take(i as int), sep),
            valid_utf8(s@) && sep < 128 ==> forall|k: int|
                0 <= k < parts@.len() ==> valid_utf8(#[trigger] parts@[k]@),
        decreases s@.len() - i,
    {
        let c = s[i];
        let ghost before = views(parts@);
        let ghost cur = piece@;
        assert(s@.take(i + 1).drop_last() =~= s@.take(i as int));
        if c == sep {
            proof {
                if valid_utf8(s@) && sep < 128 {
                    lemma_delimited_valid(s@, start, i as int);
                }
            }
            parts.push(piece);
            piece = Vec::new();
            proof {
                start = i + 1;
            }
            assert(views(parts@) =~= before.push(cur));
            assert(piece@ =~= s@.subrange(start, i + 1));
        } else {
            piece.push(c);
            assert(before.push(cur).drop_last() =~= before);
            assert(piece@ =~= s@.subrange(start, i + 1));
        }
        i = i + 1;
    }
    assert(s@.take(i as int) =~= s@);
    proof {
        if valid_utf8(s@) && sep < 128 {
            lemma_delimited_valid(s@, start, i as int);
        }
    }
    let ghost before = views(parts@);
    parts.push(piece);
    assert(views(parts@) =~= before.push(piece@));
    parts
}

} // verus!
