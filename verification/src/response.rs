//! Responses: status, ordered headers and body, kept consistent with each
//! other, and their serialised form.

use vstd::prelude::*;
use vstd::string::*;
use vstd::utf8::{decode_utf8, encode_utf8};
use crate::encoding::{decode_valid, lemma_ascii_valid};
use crate::gzip::{gzip, gzip_stream};
use crate::header::{
    header_index, header_views, lemma_content_names_differ, lemma_put_other,
    lemma_without_nothing, lemma_put_value, lemma_without_absent, position,
    put, remove_all, remove_first, value_of, without, HeaderView, HttpHeader,
    ENCODING_GZIP, HDR_CONTENT_ENCODING, HDR_CONTENT_LENGTH,
};
use crate::request::{accepts_encoding, HttpRequestContext};
use crate::text::{decimal, lemma_decimal_digits, push_decimal, COLON, CR, LF, SP};

verus! {

/// What a response is, as text and bytes.
pub struct ResponseView {
    pub status_code: u16,
    pub status_message: Seq<char>,
    pub headers: Seq<HeaderView>,
    pub body: Option<Seq<u8>>,
    /// Whether a body given to the response is compressed with gzip: the
    /// response was made for a request that declares support for it.
    pub compresses: bool,
}

/// One response. Its body and the headers `Content-Length` and
/// `Content-Encoding` are kept consistent by [`HttpResponse::set_body`].
#[derive(Clone, Debug)]
pub struct HttpResponse<'a> {
    pub status_code: u16,
    pub status_message: String,
    pub headers: Vec<HttpHeader>,
    body: Option<Vec<u8>>,
    context: Option<&'a HttpRequestContext>,
}

/// The decimal rendering of `n` as text.
pub open spec fn decimal_text(n: nat) -> Seq<char> {
    decode_utf8(decimal(n))
}

/// The bytes of a body that may be absent.
pub open spec fn body_bytes(body: Option<Seq<u8>>) -> Seq<u8> {
    match body {
        Some(b) => b,
        None => Seq::empty(),
    }
}

/// The invariant of a response: with a body, which is then not empty, the
/// first `Content-Length` field gives its length; without one, there is
/// neither a `Content-Length` nor a `Content-Encoding` field.
pub open spec fn consistent(v: ResponseView) -> bool {
    match v.body {
        Some(b) => b.len() > 0 && value_of(v.headers, HDR_CONTENT_LENGTH@) == Some(
            decimal_text(b.len()),
        ),
        None => position(v.headers, HDR_CONTENT_LENGTH@) is None && position(
            v.headers,
            HDR_CONTENT_ENCODING@,
        ) is None,
    }
}

/// The response after it was given the body `body`, of which `encoded` is
/// the gzip form, given where the body is to be compressed.
///
/// An empty body leaves the response without body and without any
/// `Content-Length` or `Content-Encoding` field. A body that is compressed
/// is stored in its gzip form, with `Content-Encoding: gzip`; any other body
/// is stored as it is, and no `Content-Encoding` field stays. In both cases
/// `Content-Length` gets the length of what is stored.
pub open spec fn with_body(v: ResponseView, body: Seq<u8>, encoded: Option<Seq<u8>>) -> ResponseView {
    if body.len() == 0 {
        ResponseView {
            headers: without(without(v.headers, HDR_CONTENT_LENGTH@), HDR_CONTENT_ENCODING@),
            body: None,
            ..v
        }
    } else if v.compresses && encoded is Some && encoded->0.len() > 0 {
        ResponseView {
            headers: put(
                put(v.headers, HDR_CONTENT_ENCODING@, ENCODING_GZIP@),
                HDR_CONTENT_LENGTH@,
                decimal_text(encoded->0.len()),
            ),
            body: encoded,
            ..v
        }
    } else {
        ResponseView {
            headers: put(
                without(v.headers, HDR_CONTENT_ENCODING@),
                HDR_CONTENT_LENGTH@,
                decimal_text(body.len()),
            ),
            body: Some(body),
            ..v
        }
    }
}

/// The decimal rendering of `n` as text.
pub fn decimal_string(n: usize) -> (s: String)
    ensures
        s@ == decimal_text(n as nat),
{
    let mut digits: Vec<u8> = Vec::new();
    push_decimal(&mut digits, n);
    proof {
        lemma_decimal_digits(n as nat);
        assert(digits@ =~= decimal(n as nat));
        lemma_ascii_valid(digits@);
    }
    decode_valid(digits.as_slice())
}

/// A consistent response stays consistent under [`with_body`], and an
/// inconsistent one becomes consistent.
pub proof fn lemma_with_body_consistent(v: ResponseView, body: Seq<u8>, encoded: Option<Seq<u8>>)
    ensures
        consistent(with_body(v, body, encoded)),
{
    if body.len() == 0 {
        let first = without(v.headers, HDR_CONTENT_LENGTH@);
        lemma_without_absent(v.headers, HDR_CONTENT_LENGTH@, HDR_CONTENT_LENGTH@);
        lemma_without_absent(first, HDR_CONTENT_ENCODING@, HDR_CONTENT_LENGTH@);
    } else if v.compresses && encoded is Some && encoded->0.len() > 0 {
        lemma_put_value(
            put(v.headers, HDR_CONTENT_ENCODING@, ENCODING_GZIP@),
            HDR_CONTENT_LENGTH@,
            decimal_text(encoded->0.len()),
        );
    } else {
        lemma_put_value(
            without(v.headers, HDR_CONTENT_ENCODING@),
            HDR_CONTENT_LENGTH@,
            decimal_text(body.len()),
        );
    }
}

/// What [`HttpResponse::set_body`] stores for the body `body`: nothing for
/// an empty body, the gzip form where the response compresses, and the body
/// as it is otherwise.
pub open spec fn stored(compresses: bool, body: Seq<u8>) -> Option<Seq<u8>> {
    if body.len() == 0 {
        None
    } else if compresses {
        Some(gzip_stream(body))
    } else {
        Some(body)
    }
}

/// What [`HttpResponse::set_body`] leaves as `Content-Encoding` for the
/// body `body`: `gzip` where the body is stored in its gzip form, and
/// nothing otherwise.
pub open spec fn stored_encoding(compresses: bool, body: Seq<u8>) -> Option<Seq<char>> {
    if body.len() > 0 && compresses {
        Some(ENCODING_GZIP@)
    } else {
        None
    }
}

/// Whether `after` is what [`HttpResponse::set_body`] makes of `before` and
/// the body `body`: [`with_body`], with the gzip form of the body where the
/// response compresses and the body is not empty. The body that is stored
/// and the `Content-Encoding` that is left are stated on their own.
pub open spec fn given_body(before: ResponseView, body: Seq<u8>, after: ResponseView) -> bool {
    &&& after == with_body(
        before,
        body,
        if body.len() > 0 && before.compresses {
            Some(gzip_stream(body))
        } else {
            None
        },
    )
    &&& after.body == stored(before.compresses, body)
    &&& value_of(after.headers, HDR_CONTENT_ENCODING@) == stored_encoding(before.compresses, body)
}

/// The headers that a response starts with.
pub open spec fn given_headers(headers: Option<Vec<HttpHeader>>) -> Seq<HeaderView> {
    match headers {
        Some(h) => header_views(h@),
        None => Seq::empty(),
    }
}

/// The first line of a serialised response, with its line break.
pub open spec fn status_line(status_code: u16, status_message: Seq<char>) -> Seq<u8> {
    encode_utf8("HTTP/1.1 "@) + decimal(status_code as nat) + seq![SP] + encode_utf8(
        status_message,
    ) + seq![CR, LF]
}

/// One header field as a line, with its line break.
pub open spec fn field_line(field: HeaderView) -> Seq<u8> {
    encode_utf8(field.name) + seq![COLON, SP] + encode_utf8(field.value) + seq![CR, LF]
}

/// The header fields as lines, in order.
pub open spec fn field_lines(fields: Seq<HeaderView>) -> Seq<u8>
    decreases fields.len(),
{
    if fields.len() == 0 {
        Seq::empty()
    } else {
        field_lines(fields.drop_last()) + field_line(fields.last())
    }
}

/// The serialised form of a response: status line, header lines in stored
/// order, an empty line, and the body bytes with nothing after them.
pub open spec fn wire(v: ResponseView) -> Seq<u8> {
    status_line(v.status_code, v.status_message) + field_lines(v.headers) + seq![CR, LF]
        + body_bytes(v.body)
}

/// `Content-Encoding` after [`with_body`]: `gzip` exactly where the body
/// was stored in its gzip form, and absent otherwise.
pub proof fn lemma_with_body_encoding(v: ResponseView, body: Seq<u8>, encoded: Option<Seq<u8>>)
    ensures
        value_of(with_body(v, body, encoded).headers, HDR_CONTENT_ENCODING@) == if body.len() > 0
            && v.compresses && encoded is Some && encoded->0.len() > 0 {
            Some(ENCODING_GZIP@)
        } else {
            None::<Seq<char>>
        },
{
    lemma_content_names_differ();
    if body.len() == 0 {
        lemma_with_body_consistent(v, body, encoded);
    } else if v.compresses && encoded is Some && encoded->0.len() > 0 {
        let first = put(v.headers, HDR_CONTENT_ENCODING@, ENCODING_GZIP@);
        lemma_put_value(v.headers, HDR_CONTENT_ENCODING@, ENCODING_GZIP@);
        lemma_put_other(
            first,
            HDR_CONTENT_LENGTH@,
            decimal_text(encoded->0.len()),
            HDR_CONTENT_ENCODING@,
        );
    } else {
        let first = without(v.headers, HDR_CONTENT_ENCODING@);
        lemma_without_absent(v.headers, HDR_CONTENT_ENCODING@, HDR_CONTENT_ENCODING@);
        lemma_put_other(
            first,
            HDR_CONTENT_LENGTH@,
            decimal_text(body.len()),
            HDR_CONTENT_ENCODING@,
        );
    }
}

/// The header list after [`HttpResponse::set_body`] of a response whose
/// header fields `given` hold neither `Content-Length` nor
/// `Content-Encoding`: the given fields, then `Content-Encoding: gzip` where
/// the body is stored in its gzip form, then `Content-Length` with the
/// length of what is stored. Without a body the given fields stand alone.
pub open spec fn headers_after(given: Seq<HeaderView>, compresses: bool, body: Seq<u8>) -> Seq<
    HeaderView,
> {
    match stored(compresses, body) {
        None => given,
        Some(bytes) => {
            let length = HeaderView {
                name: HDR_CONTENT_LENGTH@,
                value: decimal_text(bytes.len()),
            };
            if compresses {
                given.push(HeaderView { name: HDR_CONTENT_ENCODING@, value: ENCODING_GZIP@ }).push(
                    length,
                )
            } else {
                given.push(length)
            }
        },
    }
}

/// A response whose header fields hold neither `Content-Length` nor
/// `Content-Encoding` holds the header fields [`headers_after`] after
/// [`HttpResponse::set_body`].
pub proof fn lemma_headers_after(before: ResponseView, body: Seq<u8>, after: ResponseView)
    requires
        given_body(before, body, after),
        position(before.headers, HDR_CONTENT_LENGTH@) is None,
        position(before.headers, HDR_CONTENT_ENCODING@) is None,
    ensures
        after.headers == headers_after(before.headers, before.compresses, body),
{
    lemma_content_names_differ();
    let hs = before.headers;
    let length = HDR_CONTENT_LENGTH@;
    let coding = HDR_CONTENT_ENCODING@;
    lemma_without_nothing(hs, length);
    lemma_without_nothing(hs, coding);
    if body.len() > 0 && before.compresses {
        let second = put(hs, coding, ENCODING_GZIP@);
        lemma_put_other(hs, coding, ENCODING_GZIP@, length);
        assert(position(second, length) is None);
    }
}

/// Giving a body to a response that was made without one is making the
/// response with that body, as long as its header fields hold neither
/// `Content-Length` nor `Content-Encoding`.
pub proof fn law_body_given_later(start: ResponseView, body: Seq<u8>, encoded: Option<Seq<u8>>)
    requires
        start.body is None,
        position(start.headers, HDR_CONTENT_LENGTH@) is None,
        position(start.headers, HDR_CONTENT_ENCODING@) is None,
    ensures
        with_body(start, Seq::empty(), None) == start,
        with_body(with_body(start, Seq::empty(), None), body, encoded) == with_body(
            start,
            body,
            encoded,
        ),
{
    lemma_without_nothing(start.headers, HDR_CONTENT_LENGTH@);
    lemma_without_nothing(start.headers, HDR_CONTENT_ENCODING@);
}

/// The view of a body that may be absent.
pub open spec fn bytes_view(body: Option<Vec<u8>>) -> Option<Seq<u8>> {
    match body {
        Some(b) => Some(b@),
        None => None,
    }
}

impl<'a> HttpResponse<'a> {
    /// The status code.
    pub closed spec fn code(&self) -> u16 {
        self.status_code
    }

    /// The reason phrase that follows the status code.
    pub closed spec fn message(&self) -> Seq<char> {
        self.status_message@
    }

    /// The header fields, in order.
    pub closed spec fn fields(&self) -> Seq<HttpHeader> {
        self.headers@
    }

    /// The body, if there is one.
    pub closed spec fn body_view(&self) -> Option<Seq<u8>> {
        match self.body {
            Some(b) => Some(b@),
            None => None,
        }
    }

    /// The request context that the response was made for, if any.
    pub closed spec fn context_view(&self) -> Option<&'a HttpRequestContext> {
        self.context
    }

    /// Whether a body given to the response is compressed with gzip.
    pub open spec fn compresses(&self) -> bool {
        match self.context_view() {
            Some(context) => accepts_encoding(context.request@.headers, ENCODING_GZIP@),
            None => false,
        }
    }

    /// Whether the response meets its invariant.
    pub open spec fn wf(&self) -> bool {
        consistent(self@)
    }

    /// The length of a body fits in `usize`.
    pub proof fn lemma_body_fits(&self)
        ensures
            body_bytes(self@.body).len() <= usize::MAX,
    {
        match self.body {
            Some(b) => {
                vstd::std_specs::vec::axiom_spec_len(&b);
            },
            None => {},
        }
    }

    /// A response to the request of `context`. The body, where one is
    /// given, is stored as [`HttpResponse::set_body`] stores it; without
    /// one, the response has no body.
    pub fn new(
        context: &'a HttpRequestContext,
        status_code: u16,
        status_message: String,
        headers: Option<Vec<HttpHeader>>,
        body: Option<Vec<u8>>,
    ) -> (r: HttpResponse<'a>)
        ensures
            r.context_view() == Some(context),
            r.wf(),
            given_body(
                ResponseView {
                    status_code: status_code,
                    status_message: status_message@,
                    headers: given_headers(headers),
                    body: None,
                    compresses: accepts_encoding(context.request@.headers, ENCODING_GZIP@),
                },
                body_bytes(bytes_view(body)),
                r@,
            ),
    {
        let mut response = HttpResponse {
            status_code,
            status_message,
            headers: match headers {
                Some(h) => h,
                None => Vec::new(),
            },
            body: None,
            context: Some(context),
        };
        assert(response@.headers =~= given_headers(headers));
        assert(response@.compresses == accepts_encoding(context.request@.headers, ENCODING_GZIP@));
        match body {
            Some(b) => response.set_body(b),
            None => response.set_body(Vec::new()),
        }
        response
    }

    /// A response that belongs to no request. Its body is never
    /// compressed.
    pub fn with_no_context(
        status_code: u16,
        status_message: String,
        headers: Option<Vec<HttpHeader>>,
        body: Option<Vec<u8>>,
    ) -> (r: HttpResponse<'a>)
        ensures
            r.context_view() is None,
            r.wf(),
            given_body(
                ResponseView {
                    status_code: status_code,
                    status_message: status_message@,
                    headers: given_headers(headers),
                    body: None,
                    compresses: false,
                },
                body_bytes(bytes_view(body)),
                r@,
            ),
    {
        let mut response = HttpResponse {
            status_code,
            status_message,
            headers: match headers {
                Some(h) => h,
                None => Vec::new(),
            },
            body: None,
            context: None,
        };
        assert(response@.headers =~= given_headers(headers));
        match body {
            Some(b) => response.set_body(b),
            None => response.set_body(Vec::new()),
        }
        response
    }

    /// The index of the first header whose name is `name`, compared without
    /// regard to case.
    pub fn get_header_index(&mut self, name: &str) -> (r: Option<usize>)
        ensures
            *final(self) == *old(self),
            match r {
                Some(i) => i < old(self).fields().len() && position(old(self)@.headers, name@)
                    == Some(i as int),
                None => position(old(self)@.headers, name@) is None,
            },
    {
        header_index(&self.headers, name)
    }

    /// The first header whose name is `name`, compared without regard to
    /// case, for reading and for change.
    pub fn get_header(&mut self, name: &str) -> (r: Option<&mut HttpHeader>)
        ensures
            final(self).code() == old(self).code(),
            final(self).message() == old(self).message(),
            final(self).body_view() == old(self).body_view(),
            final(self).context_view() == old(self).context_view(),
            match position(old(self)@.headers, name@) {
                Some(i) => 0 <= i < old(self).fields().len() && r.is_some() && *r.unwrap() == old(
                    self,
                ).fields()[i] && final(self).fields() == old(self).fields().update(
                    i,
                    *final(r.unwrap()),
                ),
                None => r.is_none() && final(self).fields() == old(self).fields(),
            },
    {
        match header_index(&self.headers, name) {
            Some(i) => Some(&mut self.headers[i]),
            None => None,
        }
    }

    /// The value of the first header whose name is `name`, compared without
    /// regard to case.
    pub fn get_header_value(&mut self, name: &str) -> (r: Option<&str>)
        ensures
            *final(self) == *old(self),
            match r {
                Some(v) => value_of(old(self)@.headers, name@) == Some(v@),
                None => value_of(old(self)@.headers, name@) is None,
            },
    {
        match header_index(&self.headers, name) {
            Some(i) => Some(self.headers[i].value.as_str()),
            None => None,
        }
    }

    /// Removes the first header whose name is `name`, compared without
    /// regard to case. Does nothing where there is none.
    pub fn remove_header(&mut self, name: &str)
        ensures
            final(self)@ == (ResponseView {
                headers: remove_first(old(self)@.headers, name@),
                ..old(self)@
            }),
            final(self).context_view() == old(self).context_view(),
    {
        if let Some(index) = header_index(&self.headers, name) {
            self.headers.remove(index);
            assert(header_views(self.headers@) =~= header_views(old(self).headers@).remove(
                index as int,
            ));
        }
    }

    /// Gives the header `header_name` the value `value`: the first header of
    /// that name, compared without regard to case, gets the value; where
    /// there is none, a new header is added at the end.
    pub fn set_or_add_header_value(&mut self, header_name: &str, value: String)
        ensures
            final(self)@ == (ResponseView {
                headers: put(old(self)@.headers, header_name@, value@),
                ..old(self)@
            }),
            final(self).context_view() == old(self).context_view(),
    {
        match header_index(&self.headers, header_name) {
            Some(index) => {
                let name = self.headers[index].name.clone();
                self.headers.set(index, HttpHeader::new(name, value));
                assert(header_views(self.headers@) =~= put(
                    header_views(old(self).headers@),
                    header_name@,
                    value@,
                ));
            },
            None => {
                self.headers.push(HttpHeader::new(header_name.to_owned(), value));
                assert(header_views(self.headers@) =~= put(
                    header_views(old(self).headers@),
                    header_name@,
                    value@,
                ));
            },
        }
    }

    /// Whether the request that the response was made for declares support
    /// for gzip.
    fn negotiates_gzip(&self) -> (r: bool)
        ensures
            r == self.compresses(),
    {
        match self.context {
            Some(context) => context.request.supports_encoding(ENCODING_GZIP),
            None => false,
        }
    }

    /// Stores `body`, or its gzip form `encoded` where the response
    /// compresses and such a form is given.
    fn store(&mut self, body: Vec<u8>, encoded: Option<Vec<u8>>, negotiated: bool)
        requires
            negotiated == old(self).compresses(),
        ensures
            final(self)@ == with_body(old(self)@, body@, bytes_view(encoded)),
            final(self).wf(),
            final(self).context_view() == old(self).context_view(),
    {
        proof {
            lemma_with_body_consistent(old(self)@, body@, bytes_view(encoded));
        }
        if body.len() == 0 {
            self.body = None;
            remove_all(&mut self.headers, HDR_CONTENT_LENGTH);
            remove_all(&mut self.headers, HDR_CONTENT_ENCODING);
            return ;
        }
        let stored = match encoded {
            Some(stream) => {
                if negotiated && stream.len() > 0 {
                    self.set_or_add_header_value(HDR_CONTENT_ENCODING, ENCODING_GZIP.to_owned());
                    stream
                } else {
                    remove_all(&mut self.headers, HDR_CONTENT_ENCODING);
                    body
                }
            },
            None => {
                remove_all(&mut self.headers, HDR_CONTENT_ENCODING);
                body
            },
        };
        self.set_or_add_header_value(HDR_CONTENT_LENGTH, decimal_string(stored.len()));
        self.body = Some(stored);
    }

    /// Stores a body of which the gzip form is given where the body is to
    /// be compressed: see [`with_body`]. The response is consistent
    /// afterwards.
    pub fn store_body(&mut self, body: Vec<u8>, encoded: Option<Vec<u8>>)
        ensures
            final(self)@ == with_body(old(self)@, body@, bytes_view(encoded)),
            final(self).wf(),
            final(self).context_view() == old(self).context_view(),
    {
        let negotiated = self.negotiates_gzip();
        self.store(body, encoded, negotiated);
    }

    /// Gives the response the body `body`.
    ///
    /// An empty body leaves the response without body, `Content-Length` and
    /// `Content-Encoding`. Any other body is stored in its gzip form, with
    /// `Content-Encoding: gzip`, where the response was made for a request
    /// that declares support for gzip, and as it is, without
    /// `Content-Encoding`, otherwise. `Content-Length` then gives the
    /// length of what is stored.
    pub fn set_body(&mut self, body: Vec<u8>)
        ensures
            final(self).wf(),
            given_body(old(self)@, body@, final(self)@),
            final(self)@.body is Some <==> body@.len() > 0,
            final(self).context_view() == old(self).context_view(),
    {
        let negotiated = self.negotiates_gzip();
        let encoded = if body.len() > 0 && negotiated {
            gzip(body.as_slice())
        } else {
            None
        };
        proof {
            lemma_with_body_encoding(old(self)@, body@, bytes_view(encoded));
        }
        self.store(body, encoded, negotiated);
    }

    /// The serialised form of the response: see [`wire`].
    pub fn to_bytes(&self) -> (bytes: Vec<u8>)
        ensures
            bytes@ == wire(self@),
    {
        let mut out: Vec<u8> = Vec::new();
        out.extend_from_slice("HTTP/1.1 ".as_bytes());
        push_decimal(&mut out, self.status_code as usize);
        out.push(SP);
        out.extend_from_slice(self.status_message.as_str().as_bytes());
        out.push(CR);
        out.push(LF);
        assert(out@ =~= status_line(self.code(), self.message()));
        let ghost fields = header_views(self.headers@);
        let mut i: usize = 0;
        assert(fields.take(0) =~= Seq::<HeaderView>::empty());
        while i < self.headers.len()
            invariant
                i <= self.headers@.len(),
                fields == header_views(self.headers@),
                out@ == status_line(self.code(), self.message()) + field_lines(fields.take(i as int)),
            decreases self.headers@.len() - i,
        {
            let ghost before = out@;
            let header = &self.headers[i];
            out.extend_from_slice(header.name.as_str().as_bytes());
            out.push(COLON);
            out.push(SP);
            out.extend_from_slice(header.value.as_str().as_bytes());
            out.push(CR);
            out.push(LF);
            proof {
                assert(fields.take(i + 1).drop_last() =~= fields.take(i as int));
                assert(fields.take(i + 1).last() == header@);
                assert(out@ =~= before + field_line(header@));
            }
            i = i + 1;
        }
        assert(fields.take(i as int) =~= fields);
        out.push(CR);
        out.push(LF);
        match &self.body {
            Some(b) => {
                out.extend_from_slice(b.as_slice());
            },
            None => {},
        }
        assert(out@ =~= wire(self@));
        out
    }

    /// The body, if there is one.
    pub fn get_body(&self) -> (r: Option<&[u8]>)
        ensures
            match r {
                Some(b) => self.body_view() == Some(b@),
                None => self.body_view() is None,
            },
    {
        match &self.body {
            Some(b) => Some(b.as_slice()),
            None => None,
        }
    }
}

impl<'a> View for HttpResponse<'a> {
    type V = ResponseView;

    open spec fn view(&self) -> ResponseView {
        ResponseView {
            status_code: self.code(),
            status_message: self.message(),
            headers: header_views(self.fields()),
            body: self.body_view(),
            compresses: self.compresses(),
        }
    }
}

} // verus!
