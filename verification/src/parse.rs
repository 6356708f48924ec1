//! Request framing: from the bytes received so far to a parsed request, a
//! demand for more bytes, or the reason why the bytes are no request.

use vstd::prelude::*;
use vstd::slice::{slice_subrange, slice_to_vec};
use vstd::string::*;
use vstd::utf8::{decode_utf8, encode_utf8, valid_utf8};
use crate::encoding::{decode_valid, is_utf8, lemma_delimited_valid};
use crate::header::{
    header_index, header_views, value_of, HeaderView, HttpHeader, HDR_CONTENT_LENGTH,
};
use crate::request::{HttpRequest, RequestView};
use crate::text::{
    find_pair, index_of_pair, lemma_find_pair, parse_decimal, parse_usize, split, split_bytes,
    views, COLON, CR, LF, SP,
};

verus! {

/// Why received bytes are not a request.
#[derive(Clone, Copy, Debug, PartialEq, Eq, Structural)]
pub enum ParseError {
    /// The first line is not made of exactly three tokens with one space
    /// between them.
    MalformedRequestLine,
    /// A header line holds no colon followed by a space.
    MalformedHeader,
    /// The value of `Content-Length` is no non-negative integer that fits.
    InvalidContentLength,
    /// The peer closed before it had sent as many body bytes as it declared.
    TruncatedBody,
    /// A line of the request line and headers is not UTF-8.
    InvalidEncoding,
}

impl ParseError {
    /// What went wrong, in words.
    pub open spec fn text(self) -> Seq<char> {
        match self {
            ParseError::MalformedRequestLine => "malformed request line"@,
            ParseError::MalformedHeader => "malformed header"@,
            ParseError::InvalidContentLength => "invalid content length"@,
            ParseError::TruncatedBody => "truncated body"@,
            ParseError::InvalidEncoding => "request is not valid UTF-8"@,
        }
    }

    /// What went wrong, in words.
    pub fn to_string(&self) -> (s: String)
        ensures
            s@ == self.text(),
    {
        match self {
            ParseError::MalformedRequestLine => "malformed request line".to_owned(),
            ParseError::MalformedHeader => "malformed header".to_owned(),
            ParseError::InvalidContentLength => "invalid content length".to_owned(),
            ParseError::TruncatedBody => "truncated body".to_owned(),
            ParseError::InvalidEncoding => "request is not valid UTF-8".to_owned(),
        }
    }

    /// Whether the failure is the sender's fault in the form of the
    /// request, as opposed to a failure of the transport.
    pub open spec fn is_protocol_error(self) -> bool {
        self == ParseError::MalformedRequestLine || self == ParseError::MalformedHeader || self
            == ParseError::InvalidContentLength
    }
}

/// The lines before the first empty line, read from index `from` on, and the
/// index at which the body begins. A line ends at a carriage return followed
/// by a line feed; an empty line ends the block. Where the bytes end before
/// an empty line, the block is complete only if no more bytes will come
/// (`eof`): what follows the last line break is then its last line.
pub open spec fn meta_block(s: Seq<u8>, from: int, eof: bool) -> Option<(Seq<Seq<u8>>, int)>
    decreases s.len() - from,
{
    match find_pair(s, CR, LF, from) {
        Some(end) => {
            if end == from {
                Some((Seq::empty(), end + 2))
            } else {
                proof {
                    if 0 <= from {
                        lemma_find_pair(s, CR, LF, from);
                    }
                }
                match meta_block(s, end + 2, eof) {
                    Some((lines, body)) => Some((seq![s.subrange(from, end)] + lines, body)),
                    None => None,
                }
            }
        },
        None => {
            if !eof {
                None
            } else if from < s.len() {
                Some((seq![s.subrange(from, s.len() as int)], s.len() as int))
            } else {
                Some((Seq::empty(), s.len() as int))
            }
        },
    }
}

/// The three tokens of a request line: method, path and version.
pub open spec fn request_line(line: Seq<u8>) -> Option<(Seq<u8>, Seq<u8>, Seq<u8>)> {
    let tokens = split(line, SP);
    if tokens.len() == 3 {
        Some((tokens[0], tokens[1], tokens[2]))
    } else {
        None
    }
}

/// The field that a header line holds: the name is what stands before the
/// first colon that a space follows, the value what stands after that space.
pub open spec fn header_line(line: Seq<u8>) -> Option<HeaderView> {
    match find_pair(line, COLON, SP, 0) {
        Some(k) => Some(
            HeaderView {
                name: decode_utf8(line.subrange(0, k)),
                value: decode_utf8(line.subrange(k + 2, line.len() as int)),
            },
        ),
        None => None,
    }
}

/// The fields that header lines hold, in order; `None` where one of the
/// lines holds no field.
pub open spec fn header_lines(lines: Seq<Seq<u8>>) -> Option<Seq<HeaderView>>
    decreases lines.len(),
{
    if lines.len() == 0 {
        Some(Seq::empty())
    } else {
        match (header_lines(lines.drop_last()), header_line(lines.last())) {
            (Some(fields), Some(field)) => Some(fields.push(field)),
            _ => None,
        }
    }
}

/// What a header list declares about the length of the body.
pub enum Declared {
    /// There is no `Content-Length` field.
    Absent,
    /// The first `Content-Length` field gives this many bytes.
    Length(nat),
    /// The first `Content-Length` field gives no usable number.
    Invalid,
}

/// What a header list declares about the length of the body. The value is
/// read as [`parse_decimal`] reads it and has to fit in `usize`.
pub open spec fn declared_length(hs: Seq<HeaderView>) -> Declared {
    match value_of(hs, HDR_CONTENT_LENGTH@) {
        None => Declared::Absent,
        Some(v) => match parse_decimal(encode_utf8(v)) {
            Some(n) => if n <= usize::MAX {
                Declared::Length(n)
            } else {
                Declared::Invalid
            },
            None => Declared::Invalid,
        },
    }
}

/// True when every line is well-formed UTF-8.
pub open spec fn all_valid(lines: Seq<Seq<u8>>) -> bool {
    forall|k: int| 0 <= k < lines.len() ==> valid_utf8(#[trigger] lines[k])
}

/// The request that the lines of a meta block describe, without its body.
pub open spec fn parse_head(lines: Seq<Seq<u8>>) -> Result<RequestView, ParseError> {
    if !all_valid(lines) {
        Err(ParseError::InvalidEncoding)
    } else if lines.len() == 0 {
        Err(ParseError::MalformedRequestLine)
    } else {
        match request_line(lines[0]) {
            None => Err(ParseError::MalformedRequestLine),
            Some((method, path, version)) => match header_lines(lines.skip(1)) {
                None => Err(ParseError::MalformedHeader),
                Some(headers) => match declared_length(headers) {
                    Declared::Invalid => Err(ParseError::InvalidContentLength),
                    _ => Ok(
                        RequestView {
                            method: decode_utf8(method),
                            path: decode_utf8(path),
                            version: decode_utf8(version),
                            headers: headers,
                            body: None,
                        },
                    ),
                },
            },
        }
    }
}

/// The invariant of a request that was read: it has a body exactly where
/// its first `Content-Length` field declares more than zero bytes, and the
/// body is as long as declared.
pub open spec fn framed(request: RequestView) -> bool {
    match declared_length(request.headers) {
        Declared::Length(n) => if n > 0 {
            request.body matches Some(b) && b.len() == n
        } else {
            request.body is None
        },
        Declared::Absent => request.body is None,
        Declared::Invalid => false,
    }
}

/// How far the bytes received so far go towards one request.
pub enum Parsed {
    /// The empty line that ends the headers has not arrived.
    NeedHead,
    /// The headers are complete; this many body bytes are still missing.
    NeedBody(nat),
    /// The bytes hold this request.
    Ready(RequestView),
    /// The bytes are no request.
    Failed(ParseError),
}

/// What the bytes received so far amount to. `eof` says that no more bytes
/// will come. A body is read only where `Content-Length` declares more than
/// zero bytes, and is exactly that long; bytes after it are ignored.
pub open spec fn parse(buf: Seq<u8>, eof: bool) -> Parsed {
    match meta_block(buf, 0, eof) {
        None => Parsed::NeedHead,
        Some((lines, start)) => match parse_head(lines) {
            Err(e) => Parsed::Failed(e),
            Ok(head) => match declared_length(head.headers) {
                Declared::Length(n) => {
                    if n == 0 {
                        Parsed::Ready(head)
                    } else if start + n <= buf.len() {
                        Parsed::Ready(
                            RequestView { body: Some(buf.subrange(start, start + n)), ..head },
                        )
                    } else if eof {
                        Parsed::Failed(ParseError::TruncatedBody)
                    } else {
                        Parsed::NeedBody((start + n - buf.len()) as nat)
                    }
                },
                _ => Parsed::Ready(head),
            },
        },
    }
}

/// [`meta_block`] with the lines `acc` put in front of what it finds.
pub open spec fn after_lines(acc: Seq<Seq<u8>>, found: Option<(Seq<Seq<u8>>, int)>) -> Option<
    (Seq<Seq<u8>>, int),
> {
    match found {
        Some((lines, body)) => Some((acc + lines, body)),
        None => None,
    }
}

/// Reads the lines of the request line and headers from the start of `buf`,
/// and says where the body begins. Returns `None` where the empty line that
/// ends them has not arrived and more bytes may come.
pub fn read_meta(buf: &[u8], eof: bool) -> (r: Option<(Vec<Vec<u8>>, usize)>)
    ensures
        match r {
            Some((lines, body)) => meta_block(buf@, 0, eof) == Some((views(lines@), body as int))
                && body <= buf@.len(),
            None => meta_block(buf@, 0, eof) is None,
        },
{
    let n = buf.len();
    let mut lines: Vec<Vec<u8>> = Vec::new();
    let mut from: usize = 0;
    proof {
        match meta_block(buf@, 0, eof) {
            Some((found, _)) => {
                assert(Seq::<Seq<u8>>::empty() + found =~= found);
            },
            None => {},
        }
    }
    loop
        invariant
            from <= buf@.len(),
            n == buf@.len(),
            meta_block(buf@, 0, eof) == after_lines(views(lines@), meta_block(buf@, from as int, eof)),
        decreases buf@.len() - from,
    {
        proof {
            lemma_find_pair(buf@, CR, LF, from as int);
        }
        let ghost acc = views(lines@);
        match index_of_pair(buf, CR, LF, from) {
            Some(end) => {
                if end == from {
                    assert(acc + Seq::<Seq<u8>>::empty() =~= acc);
                    return Some((lines, end + 2));
                }
                let line = slice_to_vec(slice_subrange(buf, from, end));
                lines.push(line);
                proof {
                    let first = buf@.subrange(from as int, end as int);
                    assert(views(lines@) =~= acc.push(first));
                    match meta_block(buf@, end + 2, eof) {
                        Some((found, _)) => {
                            assert(acc + (seq![first] + found) =~= views(lines@) + found);
                        },
                        None => {},
                    }
                }
                from = end + 2;
            },
            None => {
                if !eof {
                    return None;
                }
                if from < buf.len() {
                    let line = slice_to_vec(slice_subrange(buf, from, buf.len()));
                    lines.push(line);
                    assert(views(lines@) =~= acc + seq![buf@.subrange(from as int, buf@.len() as int)]);
                } else {
                    assert(acc + Seq::<Seq<u8>>::empty() =~= acc);
                }
                return Some((lines, buf.len()));
            },
        }
    }
}

/// What the header list declares about the length of the body.
pub fn content_length(headers: &Vec<HttpHeader>) -> (r: Result<Option<usize>, ParseError>)
    ensures
        match declared_length(header_views(headers@)) {
            Declared::Absent => r == Ok::<Option<usize>, ParseError>(None),
            Declared::Length(n) => r == Ok::<Option<usize>, ParseError>(Some(n as usize)),
            Declared::Invalid => r == Err::<Option<usize>, ParseError>(
                ParseError::InvalidContentLength,
            ),
        },
{
    match header_index(headers, HDR_CONTENT_LENGTH) {
        None => Ok(None),
        Some(i) => {
            assert(header_views(headers@)[i as int].value == headers@[i as int].value@);
            match parse_usize(headers[i].value.as_str().as_bytes()) {
                Some(n) => Ok(Some(n)),
                None => Err(ParseError::InvalidContentLength),
            }
        },
    }
}

/// Reads one header line.
fn read_header_line(line: &[u8]) -> (r: Option<HttpHeader>)
    requires
        valid_utf8(line@),
    ensures
        match header_line(line@) {
            Some(v) => r matches Some(h) && h@ == v,
            None => r is None,
        },
{
    let n = line.len();
    match index_of_pair(line, COLON, SP, 0) {
        None => None,
        Some(k) => {
            proof {
                lemma_find_pair(line@, COLON, SP, 0);
                lemma_delimited_valid(line@, 0, k as int);
                lemma_delimited_valid(line@, k + 2, line@.len() as int);
            }
            let name = decode_valid(slice_subrange(line, 0, k));
            let value = decode_valid(slice_subrange(line, k + 2, n));
            Some(HttpHeader::new(name, value))
        },
    }
}

/// Where the first lines hold no header list, the whole list holds none.
proof fn lemma_header_lines_prefix(lines: Seq<Seq<u8>>, k: int)
    requires
        0 <= k <= lines.len(),
        header_lines(lines.take(k)) is None,
    ensures
        header_lines(lines) is None,
    decreases lines.len() - k,
{
    if k == lines.len() {
        assert(lines.take(k) =~= lines);
    } else {
        assert(lines.take(k + 1).drop_last() =~= lines.take(k));
        lemma_header_lines_prefix(lines, k + 1);
    }
}

/// Parses the request line and the header lines of a meta block. The
/// request it returns has no body yet.
pub fn read_head(lines: &Vec<Vec<u8>>) -> (r: Result<HttpRequest, ParseError>)
    ensures
        match parse_head(views(lines@)) {
            Ok(v) => r matches Ok(q) && q@ == v,
            Err(e) => r matches Err(f) && f == e,
        },
{
    match read_head_and_length(lines) {
        Ok((request, _)) => Ok(request),
        Err(e) => Err(e),
    }
}

/// Parses the request line and the header lines of a meta block, and says
/// how long a body the headers declare.
fn read_head_and_length(lines: &Vec<Vec<u8>>) -> (r: Result<(HttpRequest, Option<usize>), ParseError>)
    ensures
        match parse_head(views(lines@)) {
            Ok(v) => r matches Ok((q, length)) && q@ == v && match declared_length(v.headers) {
                Declared::Length(n) => length == Some(n as usize),
                _ => length is None,
            },
            Err(e) => r matches Err(f) && f == e,
        },
{
    let ghost all = views(lines@);
    let mut k: usize = 0;
    while k < lines.len()
        invariant
            k <= lines@.len(),
            all == views(lines@),
            forall|j: int| 0 <= j < k ==> valid_utf8(#[trigger] all[j]),
        decreases lines@.len() - k,
    {
        if !is_utf8(lines[k].as_slice()) {
            assert(!valid_utf8(all[k as int]));
            return Err(ParseError::InvalidEncoding);
        }
        k = k + 1;
    }
    assert(all_valid(all));
    if lines.len() == 0 {
        return Err(ParseError::MalformedRequestLine);
    }
    let tokens = split_bytes(lines[0].as_slice(), SP);
    assert(all[0] == lines@[0]@);
    if tokens.len() != 3 {
        return Err(ParseError::MalformedRequestLine);
    }
    assert(views(tokens@)[0] == tokens@[0]@);
    assert(views(tokens@)[1] == tokens@[1]@);
    assert(views(tokens@)[2] == tokens@[2]@);
    let method = decode_valid(tokens[0].as_slice());
    let path = decode_valid(tokens[1].as_slice());
    let version = decode_valid(tokens[2].as_slice());
    let ghost rest = all.skip(1);
    let mut headers: Vec<HttpHeader> = Vec::new();
    let mut i: usize = 1;
    assert(rest.take(0) =~= Seq::<Seq<u8>>::empty());
    while i < lines.len()
        invariant
            1 <= i <= lines@.len(),
            all == views(lines@),
            all_valid(all),
            rest == all.skip(1),
            split(all[0], SP).len() == 3,
            header_lines(rest.take(i - 1)) == Some(header_views(headers@)),
        decreases lines@.len() - i,
    {
        let ghost before = header_views(headers@);
        assert(rest.take(i as int).drop_last() =~= rest.take(i - 1));
        assert(rest.take(i as int).last() == all[i as int]);
        assert(all[i as int] == lines@[i as int]@);
        match read_header_line(lines[i].as_slice()) {
            None => {
                proof {
                    lemma_header_lines_prefix(rest, i as int);
                }
                return Err(ParseError::MalformedHeader);
            },
            Some(header) => {
                headers.push(header);
                assert(header_views(headers@) =~= before.push(header@));
            },
        }
        i = i + 1;
    }
    assert(rest.take(i - 1) =~= rest);
    match content_length(&headers) {
        Err(e) => Err(e),
        Ok(length) => Ok((HttpRequest { method, path, version, headers, body: None }, length)),
    }
}

/// How far the bytes received so far go towards one request.
#[derive(Debug)]
pub enum Progress {
    /// The empty line that ends the headers has not arrived: read on.
    NeedHead,
    /// The headers are complete; this many body bytes are still missing.
    NeedBody(usize),
    /// The bytes hold this request.
    Ready(HttpRequest),
    /// The bytes are no request.
    Failed(ParseError),
}

impl View for Progress {
    type V = Parsed;

    open spec fn view(&self) -> Parsed {
        match self {
            Progress::NeedHead => Parsed::NeedHead,
            Progress::NeedBody(n) => Parsed::NeedBody(*n as nat),
            Progress::Ready(request) => Parsed::Ready(request@),
            Progress::Failed(e) => Parsed::Failed(*e),
        }
    }
}

/// Decides what the bytes received so far amount to: a request, a demand
/// for more bytes, or a failure. `eof` says that the peer will send no more.
pub fn read_request(buf: &[u8], eof: bool) -> (r: Progress)
    ensures
        r@ == parse(buf@, eof),
        r matches Progress::Ready(request) ==> framed(request@),
{
    proof {
        law_body_as_declared(buf@, eof);
    }
    match read_meta(buf, eof) {
        None => Progress::NeedHead,
        Some((lines, start)) => match read_head_and_length(&lines) {
            Err(e) => Progress::Failed(e),
            Ok((request, length)) => match length {
                Some(n) => {
                    if n == 0 {
                        Progress::Ready(request)
                    } else if n <= buf.len() - start {
                        let body = slice_to_vec(slice_subrange(buf, start, start + n));
                        let complete = HttpRequest {
                            method: request.method,
                            path: request.path,
                            version: request.version,
                            headers: request.headers,
                            body: Some(body),
                        };
                        Progress::Ready(complete)
                    } else if eof {
                        Progress::Failed(ParseError::TruncatedBody)
                    } else {
                        Progress::NeedBody(n - (buf.len() - start))
                    }
                },
                None => Progress::Ready(request),
            },
        },
    }
}

/// Once no more bytes will come, the meta block is complete.
pub proof fn lemma_meta_block_at_eof(s: Seq<u8>, from: int)
    requires
        0 <= from,
    ensures
        meta_block(s, from, true) is Some,
    decreases s.len() - from,
{
    lemma_find_pair(s, CR, LF, from);
    match find_pair(s, CR, LF, from) {
        Some(end) => {
            if end > from {
                lemma_meta_block_at_eof(s, end + 2);
            }
        },
        None => {},
    }
}

/// Parses a request of which all bytes have been received.
pub fn parse_request(buf: &[u8]) -> (r: Result<HttpRequest, ParseError>)
    ensures
        match parse(buf@, true) {
            Parsed::Ready(v) => r matches Ok(q) && q@ == v,
            Parsed::Failed(e) => r matches Err(f) && f == e,
            _ => false,
        },
        r matches Ok(request) ==> framed(request@),
{
    proof {
        lemma_meta_block_at_eof(buf@, 0);
    }
    match read_request(buf, true) {
        Progress::Ready(request) => Ok(request),
        Progress::Failed(e) => Err(e),
        _ => Err(ParseError::TruncatedBody),
    }
}

/// A request that was read is [`framed`].
pub proof fn law_body_as_declared(buf: Seq<u8>, eof: bool)
    ensures
        parse(buf, eof) matches Parsed::Ready(request) ==> framed(request),
{
    lemma_meta_block_start(buf, 0, eof);
}

/// The body of a complete meta block begins inside the bytes or at their
/// end.
pub proof fn lemma_meta_block_start(s: Seq<u8>, from: int, eof: bool)
    requires
        0 <= from <= s.len(),
    ensures
        meta_block(s, from, eof) matches Some((lines, start)) ==> from <= start <= s.len(),
    decreases s.len() - from,
{
    lemma_find_pair(s, CR, LF, from);
    match find_pair(s, CR, LF, from) {
        Some(end) => {
            if end > from {
                lemma_meta_block_start(s, end + 2, eof);
            }
        },
        None => {},
    }
}

} // verus!
