//! What a client reads back from a serialised response, and the proof that
//! it is what the response holds.

use vstd::prelude::*;
use vstd::string::*;
use vstd::utf8::{
    decode_utf8_encode_utf8, encode_utf8, encode_utf8_decode_utf8, is_ascii_chars_encode_utf8,
};
use crate::encoding::{all_ascii, lemma_ascii_valid};
use crate::header::HeaderView;
use crate::parse::{declared_length, header_line, header_lines, meta_block, Declared};
use crate::response::{
    body_bytes, consistent, field_line, field_lines, status_line, wire, HttpResponse,
    ResponseView,
};
use crate::text::{
    decimal, lemma_decimal_digits, lemma_find_pair_is, lemma_parse_decimal_of_decimal, pair_at,
    COLON, CR, LF, SP,
};

verus! {

/// What a client reads from the bytes of a response.
pub struct Received {
    /// The first line, without its line break.
    pub status: Seq<u8>,
    /// The header fields, in order.
    pub headers: Seq<HeaderView>,
    /// The body: as many bytes as `Content-Length` declares.
    pub body: Seq<u8>,
}

/// What a client reads from the bytes `w`: the lines up to the first empty
/// line, of which the first is the status line and the others hold the
/// header fields, and then as many body bytes as the first `Content-Length`
/// field declares, none where there is no such field. `None` where `w` does
/// not hold all of that.
pub open spec fn receive(w: Seq<u8>) -> Option<Received> {
    match meta_block(w, 0, true) {
        None => None,
        Some((lines, start)) => {
            if lines.len() == 0 {
                None
            } else {
                match header_lines(lines.skip(1)) {
                    None => None,
                    Some(headers) => match declared_length(headers) {
                        Declared::Invalid => None,
                        Declared::Absent => Some(
                            Received { status: lines[0], headers: headers, body: Seq::empty() },
                        ),
                        Declared::Length(n) => {
                            if start + n <= w.len() {
                                Some(
                                    Received {
                                        status: lines[0],
                                        headers: headers,
                                        body: w.subrange(start, start + n),
                                    },
                                )
                            } else {
                                None
                            }
                        },
                    },
                }
            }
        },
    }
}

/// True when the byte `a` is nowhere in `s` followed by `b`.
pub open spec fn free_of(s: Seq<u8>, a: u8, b: u8) -> bool {
    forall|i: int| !pair_at(s, a, b, i)
}

/// True when a header field can stand on one line and be read back: neither
/// its name nor its value holds a line break, and its name holds no colon
/// followed by a space.
pub open spec fn field_safe(field: HeaderView) -> bool {
    &&& free_of(encode_utf8(field.name), CR, LF)
    &&& free_of(encode_utf8(field.value), CR, LF)
    &&& free_of(encode_utf8(field.name), COLON, SP)
}

/// True when the status line and the header lines of a response can be read
/// back line by line: the reason phrase holds no line break, and every
/// header field is [`field_safe`].
pub open spec fn line_safe(v: ResponseView) -> bool {
    &&& free_of(encode_utf8(v.status_message), CR, LF)
    &&& forall|k: int| 0 <= k < v.headers.len() ==> field_safe(#[trigger] v.headers[k])
}

/// The status line without its line break.
pub open spec fn status_text(status_code: u16, status_message: Seq<char>) -> Seq<u8> {
    encode_utf8("HTTP/1.1 "@) + decimal(status_code as nat) + seq![SP] + encode_utf8(
        status_message,
    )
}

/// A header line without its line break.
pub open spec fn field_text(field: HeaderView) -> Seq<u8> {
    encode_utf8(field.name) + seq![COLON, SP] + encode_utf8(field.value)
}

/// The header lines without their line breaks.
pub open spec fn field_texts(fields: Seq<HeaderView>) -> Seq<Seq<u8>> {
    Seq::new(fields.len(), |k: int| field_text(fields[k]))
}

/// The lines, each followed by a line break, one after the other.
pub open spec fn joined(lines: Seq<Seq<u8>>) -> Seq<u8>
    decreases lines.len(),
{
    if lines.len() == 0 {
        Seq::empty()
    } else {
        lines[0] + seq![CR, LF] + joined(lines.drop_first())
    }
}

/// Two texts without the pair stay without it when joined, unless the pair
/// comes about where they meet.
proof fn lemma_free_of_concat(x: Seq<u8>, y: Seq<u8>, a: u8, b: u8)
    requires
        free_of(x, a, b),
        free_of(y, a, b),
        x.len() == 0 || y.len() == 0 || x.last() != a || y[0] != b,
    ensures
        free_of(x + y, a, b),
{
    let s = x + y;
    assert forall|i: int| !pair_at(s, a, b, i) by {
        if pair_at(s, a, b, i) {
            if i + 1 < x.len() {
                assert(pair_at(x, a, b, i));
            } else if i >= x.len() {
                assert(pair_at(y, a, b, i - x.len()));
            } else {
                assert(s[i] == x.last());
                assert(s[i + 1] == y[0]);
            }
        }
    }
}

/// A text in which the byte `a` does not occur is without the pair.
proof fn lemma_free_of_absent(x: Seq<u8>, a: u8, b: u8)
    requires
        forall|i: int| 0 <= i < x.len() ==> x[i] != a,
    ensures
        free_of(x, a, b),
{
}

/// The status line without its line break is not empty and holds no line
/// break, provided the reason phrase holds none.
proof fn lemma_status_text(status_code: u16, status_message: Seq<char>)
    requires
        free_of(encode_utf8(status_message), CR, LF),
    ensures
        status_text(status_code, status_message).len() > 0,
        free_of(status_text(status_code, status_message), CR, LF),
{
    let lead = encode_utf8("HTTP/1.1 "@);
    let digits = decimal(status_code as nat);
    reveal_strlit("HTTP/1.1 ");
    is_ascii_chars_encode_utf8("HTTP/1.1 "@);
    lemma_decimal_digits(status_code as nat);
    assert(lead.len() == 9);
    assert forall|i: int| 0 <= i < lead.len() implies lead[i] != CR by {
        assert(lead[i] == "HTTP/1.1 "@[i] as u8);
    }
    lemma_free_of_absent(lead, CR, LF);
    lemma_free_of_absent(digits, CR, LF);
    lemma_free_of_absent(seq![SP], CR, LF);
    lemma_free_of_concat(lead, digits, CR, LF);
    lemma_free_of_concat(lead + digits, seq![SP], CR, LF);
    lemma_free_of_concat(lead + digits + seq![SP], encode_utf8(status_message), CR, LF);
}

/// A header line without its line break is not empty and holds no line
/// break, provided its name and value hold none.
proof fn lemma_field_text(field: HeaderView)
    requires
        field_safe(field),
    ensures
        field_text(field).len() > 0,
        free_of(field_text(field), CR, LF),
{
    let name = encode_utf8(field.name);
    let value = encode_utf8(field.value);
    lemma_free_of_absent(seq![COLON, SP], CR, LF);
    lemma_free_of_concat(name, seq![COLON, SP], CR, LF);
    lemma_free_of_concat(name + seq![COLON, SP], value, CR, LF);
}

/// A header line of a field that is [`field_safe`] holds that field.
proof fn lemma_header_line_of_field(field: HeaderView)
    requires
        field_safe(field),
    ensures
        header_line(field_text(field)) == Some(field),
{
    let name = encode_utf8(field.name);
    let value = encode_utf8(field.value);
    let line = field_text(field);
    let k = name.len() as int;
    assert(pair_at(line, COLON, SP, k));
    assert forall|j: int| 0 <= j < k implies !pair_at(line, COLON, SP, j) by {
        if pair_at(line, COLON, SP, j) {
            if j + 1 < k {
                assert(pair_at(name, COLON, SP, j));
            } else {
                assert(line[j + 1] == COLON);
            }
        }
    }
    lemma_find_pair_is(line, COLON, SP, 0, k);
    assert(line.subrange(0, k) =~= name);
    assert(line.subrange(k + 2, line.len() as int) =~= value);
    encode_utf8_decode_utf8(field.name);
    encode_utf8_decode_utf8(field.value);
}

/// The header lines of fields that are [`field_safe`] hold those fields.
proof fn lemma_header_lines_of_fields(fields: Seq<HeaderView>)
    requires
        forall|k: int| 0 <= k < fields.len() ==> field_safe(#[trigger] fields[k]),
    ensures
        header_lines(field_texts(fields)) == Some(fields),
    decreases fields.len(),
{
    if fields.len() == 0 {
        assert(fields =~= Seq::<HeaderView>::empty());
    } else {
        let shorter = fields.drop_last();
        assert forall|k: int| 0 <= k < shorter.len() implies field_safe(#[trigger] shorter[k]) by {
            assert(shorter[k] == fields[k]);
        }
        lemma_header_lines_of_fields(shorter);
        assert(field_texts(fields).drop_last() =~= field_texts(shorter));
        assert(field_texts(fields).last() == field_text(fields.last()));
        lemma_header_line_of_field(fields.last());
        assert(shorter.push(fields.last()) =~= fields);
    }
}

/// Joining lines of which the last is `line` is joining the others and
/// adding `line` with its line break.
proof fn lemma_joined_push(lines: Seq<Seq<u8>>, line: Seq<u8>)
    ensures
        joined(lines.push(line)) == joined(lines) + line + seq![CR, LF],
    decreases lines.len(),
{
    let all = lines.push(line);
    if lines.len() == 0 {
        assert(all.drop_first() =~= Seq::<Seq<u8>>::empty());
        assert(joined(all.drop_first()) =~= Seq::<u8>::empty());
        assert(all[0] == line);
        assert(joined(all) =~= joined(lines) + line + seq![CR, LF]);
    } else {
        lemma_joined_push(lines.drop_first(), line);
        assert(all.drop_first() =~= lines.drop_first().push(line));
        assert(joined(all) =~= joined(lines) + line + seq![CR, LF]);
    }
}

/// The serialised header lines are the header lines joined.
proof fn lemma_field_lines_joined(fields: Seq<HeaderView>)
    ensures
        field_lines(fields) == joined(field_texts(fields)),
    decreases fields.len(),
{
    if fields.len() == 0 {
    } else {
        let shorter = fields.drop_last();
        lemma_field_lines_joined(shorter);
        lemma_joined_push(field_texts(shorter), field_text(fields.last()));
        assert(field_texts(shorter).push(field_text(fields.last())) =~= field_texts(fields));
        assert(field_line(fields.last()) =~= field_text(fields.last()) + seq![CR, LF]);
        assert(field_lines(fields) =~= joined(field_texts(fields)));
    }
}

/// Where lines that are not empty and hold no line break stand joined in
/// `s` from index `from` on, and a line break follows them, the meta block
/// read from `from` holds exactly these lines and ends after that line
/// break.
proof fn lemma_meta_block_of_joined(s: Seq<u8>, from: int, lines: Seq<Seq<u8>>, eof: bool)
    requires
        0 <= from,
        from + joined(lines).len() + 2 <= s.len(),
        s.subrange(from, from + joined(lines).len()) == joined(lines),
        pair_at(s, CR, LF, from + joined(lines).len()),
        forall|k: int|
            0 <= k < lines.len() ==> (#[trigger] lines[k]).len() > 0 && free_of(lines[k], CR, LF),
    ensures
        meta_block(s, from, eof) == Some((lines, from + joined(lines).len() + 2)),
    decreases lines.len(),
{
    if lines.len() == 0 {
        lemma_find_pair_is(s, CR, LF, from, from);
        assert(lines =~= Seq::<Seq<u8>>::empty());
    } else {
        let line = lines[0];
        let rest = lines.drop_first();
        let len = line.len() as int;
        let end = from + len;
        let whole = joined(lines);
        assert(whole == line + seq![CR, LF] + joined(rest));
        assert forall|j: int| 0 <= j < whole.len() implies s[from + j] == whole[j] by {
            assert(s.subrange(from, from + whole.len())[j] == s[from + j]);
        }
        assert(s[end] == whole[len]);
        assert(s[end + 1] == whole[len + 1]);
        assert(pair_at(s, CR, LF, end));
        assert forall|j: int| from <= j < end implies !pair_at(s, CR, LF, j) by {
            if pair_at(s, CR, LF, j) {
                if j + 1 < end {
                    assert(s[j] == whole[j - from]);
                    assert(s[j + 1] == whole[j + 1 - from]);
                    assert(pair_at(line, CR, LF, j - from));
                } else {
                    assert(s[j + 1] == CR);
                }
            }
        }
        lemma_find_pair_is(s, CR, LF, from, end);
        assert(s.subrange(from, end) =~= line);
        let next = end + 2;
        assert(s.subrange(next, next + joined(rest).len()) =~= joined(rest)) by {
            assert forall|j: int| 0 <= j < joined(rest).len() implies s[next + j] == joined(
                rest,
            )[j] by {
                assert(s[from + (len + 2 + j)] == whole[len + 2 + j]);
            }
        }
        assert forall|k: int| 0 <= k < rest.len() implies (#[trigger] rest[k]).len() > 0
            && free_of(rest[k], CR, LF) by {
            assert(rest[k] == lines[k + 1]);
        }
        lemma_meta_block_of_joined(s, next, rest, eof);
        assert(seq![line] + rest =~= lines);
    }
}

/// What a consistent response declares as the length of its body is the
/// length of its body.
pub proof fn lemma_declared_length(v: ResponseView)
    requires
        consistent(v),
        body_bytes(v.body).len() <= usize::MAX,
    ensures
        declared_length(v.headers) == match v.body {
            Some(b) => Declared::Length(b.len()),
            None => Declared::Absent,
        },
{
    match v.body {
        Some(b) => {
            let n = b.len();
            lemma_decimal_digits(n);
            assert(all_ascii(decimal(n)));
            lemma_ascii_valid(decimal(n));
            decode_utf8_encode_utf8(decimal(n));
            lemma_parse_decimal_of_decimal(n);
        },
        None => {},
    }
}

/// Round trip of framing: what a client reads from the serialised form of
/// a consistent response is the status line, the header fields and the body
/// of the response, and the length that its `Content-Length` declares is
/// the length of that body.
///
/// This needs the reason phrase and the header fields to fit on their
/// lines ([`line_safe`]): a response with a line break in one of them, or
/// with a colon and a space in a header name, is read back as another one.
pub proof fn law_round_trip(r: HttpResponse)
    requires
        r.wf(),
        line_safe(r@),
    ensures
        receive(wire(r@)) == Some(
            Received {
                status: status_text(r@.status_code, r@.status_message),
                headers: r@.headers,
                body: body_bytes(r@.body),
            },
        ),
        r@.body matches Some(b) ==> declared_length(r@.headers) == Declared::Length(b.len()),
{
    let v = r@;
    let w = wire(v);
    let status = status_text(v.status_code, v.status_message);
    let lines = seq![status] + field_texts(v.headers);
    let body = body_bytes(v.body);
    r.lemma_body_fits();
    lemma_declared_length(v);
    lemma_status_text(v.status_code, v.status_message);
    assert forall|k: int| 0 <= k < lines.len() implies (#[trigger] lines[k]).len() > 0 && free_of(
        lines[k],
        CR,
        LF,
    ) by {
        if k > 0 {
            assert(lines[k] == field_text(v.headers[k - 1]));
            lemma_field_text(v.headers[k - 1]);
        }
    }
    lemma_field_lines_joined(v.headers);
    assert(lines.drop_first() =~= field_texts(v.headers));
    assert(joined(lines) =~= status_line(v.status_code, v.status_message) + field_lines(
        v.headers,
    ));
    assert(w =~= joined(lines) + seq![CR, LF] + body);
    let head = joined(lines).len() as int;
    assert(w.subrange(0, head) =~= joined(lines));
    assert(pair_at(w, CR, LF, head));
    lemma_meta_block_of_joined(w, 0, lines, true);
    assert(lines.skip(1) =~= field_texts(v.headers));
    lemma_header_lines_of_fields(v.headers);
    assert(w.subrange(head + 2, head + 2 + body.len()) =~= body);
}

} // verus!
