//! UTF-8: turning wire bytes into text, and the facts about UTF-8 that let
//! the parser cut a line at ASCII separators.

use vstd::prelude::*;
use vstd::utf8::*;

verus! {

/// True for the bytes below 128.
pub open spec fn is_ascii_byte(b: u8) -> bool {
    b < 128
}

/// True when every byte of `s` is below 128.
pub open spec fn all_ascii(s: Seq<u8>) -> bool {
    forall|i: int| 0 <= i < s.len() ==> is_ascii_byte(#[trigger] s[i])
}

/// Trusted: `std::str::from_utf8`. It accepts exactly the byte strings that
/// are well-formed UTF-8, and the text it returns is their decoding.
#[verifier::external_body]
fn str_from_utf8(bytes: &[u8]) -> (r: Option<&str>)
    ensures
        r is Some <==> valid_utf8(bytes@),
        r matches Some(s) ==> s@ == decode_utf8(bytes@),
{
    std::str::from_utf8(bytes).ok()
}

/// Whether `bytes` are well-formed UTF-8.
pub fn is_utf8(bytes: &[u8]) -> (r: bool)
    ensures
        r == valid_utf8(bytes@),
{
    str_from_utf8(bytes).is_some()
}

/// Decodes `bytes` as UTF-8 text, or returns `None` where they are not
/// well-formed UTF-8.
pub fn decode(bytes: &[u8]) -> (r: Option<String>)
    ensures
        r is Some <==> valid_utf8(bytes@),
        r matches Some(s) ==> s@ == decode_utf8(bytes@),
{
    match str_from_utf8(bytes) {
        Some(s) => Some(s.to_owned()),
        None => None,
    }
}

/// Decodes bytes that are known to be well-formed UTF-8.
pub(crate) fn decode_valid(bytes: &[u8]) -> (s: String)
    requires
        valid_utf8(bytes@),
    ensures
        s@ == decode_utf8(bytes@),
{
    match decode(bytes) {
        Some(s) => s,
        None => String::new(),
    }
}

/// The part of a UTF-8 string that begins after the first byte, where that
/// byte is ASCII, is UTF-8 too.
proof fn lemma_valid_after_ascii(t: Seq<u8>)
    requires
        valid_utf8(t),
        t.len() > 0,
        is_ascii_byte(t[0]),
    ensures
        valid_utf8(t.subrange(1, t.len() as int)),
{
    assert(is_leading_byte_width_1(t[0]));
    assert(length_of_first_scalar(t) == 1);
    assert(pop_first_scalar(t) == t.subrange(1, t.len() as int));
}

/// A stretch of a UTF-8 string that begins at its start or right after an
/// ASCII byte, and ends at its end or right before an ASCII byte, is
/// well-formed UTF-8 itself.
pub proof fn lemma_delimited_valid(bytes: Seq<u8>, p: int, q: int)
    requires
        valid_utf8(bytes),
        0 <= p <= q <= bytes.len(),
        p == 0 || is_ascii_byte(bytes[p - 1]),
        q == bytes.len() || is_ascii_byte(bytes[q]),
    ensures
        valid_utf8(bytes.subrange(p, q)),
{
    let left = bytes.subrange(0, q);
    if q == bytes.len() {
        assert(left =~= bytes);
    } else {
        is_char_boundary_iff_not_is_continuation_byte(bytes, q);
        valid_utf8_split(bytes, q);
    }
    if p == 0 {
    } else {
        is_char_boundary_iff_not_is_continuation_byte(left, p - 1);
        valid_utf8_split(left, p - 1);
        let t = left.subrange(p - 1, q);
        lemma_valid_after_ascii(t);
        assert(t.subrange(1, t.len() as int) =~= bytes.subrange(p, q));
    }
}

/// The encoding of two texts joined is the two encodings joined.
pub proof fn lemma_encode_concat(a: Seq<char>, b: Seq<char>)
    ensures
        encode_utf8(a + b) == encode_utf8(a) + encode_utf8(b),
    decreases a.len(),
{
    if a.len() == 0 {
        assert(a + b =~= b);
        assert(encode_utf8(a) + encode_utf8(b) =~= encode_utf8(b));
    } else {
        lemma_encode_concat(a.drop_first(), b);
        assert((a + b).drop_first() =~= a.drop_first() + b);
        assert((a + b)[0] == a[0]);
        assert(encode_utf8(a + b) =~= encode_utf8(a) + encode_utf8(b));
    }
}

/// A byte string of ASCII bytes only is well-formed UTF-8.
pub proof fn lemma_ascii_valid(s: Seq<u8>)
    requires
        all_ascii(s),
    ensures
        valid_utf8(s),
{
    assert(s.subrange(0, 0) =~= Seq::<u8>::empty());
    assert(partial_valid_utf8(s, 0));
    partial_valid_utf8_extend_ascii_block(s, 0, s.len() as int);
    assert(s.subrange(0, s.len() as int) =~= s);
}

} // verus!
