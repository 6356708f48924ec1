//! Routing: from a request to the response, or to the file operation that
//! has to come before the response.

use vstd::prelude::*;
use vstd::slice::{slice_subrange, slice_to_vec};
use vstd::string::*;
use vstd::utf8::{
    encode_utf8, encode_utf8_decode_utf8, encode_utf8_valid_utf8, is_ascii_chars,
    is_ascii_chars_encode_utf8,
};
use crate::chars::{begins_with, chars_of, starts_with, text_is};
use crate::encoding::{decode_valid, lemma_encode_concat};
use crate::header::{
    header_views, lemma_content_names_differ, lemma_position_none, value_of, HeaderView, HttpHeader, CT_APP_OCTET_STREAM, CT_TEXT_PLAIN, ENCODING_GZIP,
    HDR_CONTENT_ENCODING, HDR_CONTENT_LENGTH, HDR_CONTENT_TYPE, HDR_USER_AGENT, METHOD_GET,
    METHOD_POST,
};
use crate::parse::ParseError;
use crate::request::{accepts_encoding, HttpRequestContext};
use crate::response::{
    body_bytes, bytes_view, given_body, given_headers, headers_after, lemma_headers_after,
    HttpResponse, ResponseView,
};

verus! {

/// Reason phrase of status 200.
pub const MSG_OK: &'static str = "OK";

/// Reason phrase of status 201.
pub const MSG_CREATED: &'static str = "Created";

/// Reason phrase of status 400.
pub const MSG_BAD_REQUEST: &'static str = "Bad Request";

/// Reason phrase of status 500.
pub const MSG_INTERNAL_SERVER_ERROR: &'static str = "Internal Server Error";

/// Reason phrase of status 404.
pub const MSG_NOT_FOUND: &'static str = "Not Found";

/// Reason phrase of status 405.
pub const MSG_METHOD_NOT_ALLOWED: &'static str = "Method Not Allowed";

/// Prefix of the paths that echo what follows the prefix.
pub const ROUTE_ECHO: &'static str = "/echo/";

/// Prefix of the paths that name a stored file.
pub const ROUTE_FILES: &'static str = "/files/";

/// The home path.
pub const ROUTE_HOME: &'static str = "/";

/// The path that reports the client's user agent.
pub const ROUTE_USER_AGENT: &'static str = "/user-agent";

/// What is sent as user agent where the request names none.
pub const UNKNOWN_USER_AGENT: &'static str = "Unknown";

/// The handlers that a request can be routed to.
#[derive(Clone, Copy, Debug, PartialEq, Eq, Structural)]
pub enum Route {
    /// `GET /`.
    Home,
    /// `GET /user-agent`.
    UserAgent,
    /// `GET /echo/{msg}`.
    Echo,
    /// `GET /files/{name}`.
    GetFile,
    /// `POST /files/{name}`.
    PostFile,
    /// A supported method with a path that no route has.
    NotFound,
    /// A method other than `GET` and `POST`.
    MethodNotAllowed,
}

/// The route of a `GET` request: the two fixed paths first, then the two
/// prefixes.
pub open spec fn get_route(path: Seq<char>) -> Route {
    if path == ROUTE_HOME@ {
        Route::Home
    } else if path == ROUTE_USER_AGENT@ {
        Route::UserAgent
    } else if starts_with(path, ROUTE_ECHO@) {
        Route::Echo
    } else if starts_with(path, ROUTE_FILES@) {
        Route::GetFile
    } else {
        Route::NotFound
    }
}

/// The route of a `POST` request.
pub open spec fn post_route(path: Seq<char>) -> Route {
    if starts_with(path, ROUTE_FILES@) {
        Route::PostFile
    } else {
        Route::NotFound
    }
}

/// The route of a request: by its method, spelled exactly, then by its path.
pub open spec fn route_of(method: Seq<char>, path: Seq<char>) -> Route {
    if method == METHOD_GET@ {
        get_route(path)
    } else if method == METHOD_POST@ {
        post_route(path)
    } else {
        Route::MethodNotAllowed
    }
}

/// What follows `prefix` in `path`; nothing where `path` does not begin
/// with it. Nothing is decoded.
pub open spec fn remainder(path: Seq<char>, prefix: Seq<char>) -> Seq<char> {
    if starts_with(path, prefix) {
        path.skip(prefix.len() as int)
    } else {
        Seq::empty()
    }
}

/// The header list that holds `Content-Type` with the given value only.
pub open spec fn content_type(value: Seq<char>) -> Seq<HeaderView> {
    seq![HeaderView { name: HDR_CONTENT_TYPE@, value: value }]
}

/// The response with the given status and headers that was given the body
/// `body`, for a request that does or does not declare support for gzip:
/// what it is before the body is given.
pub open spec fn blank(
    status_code: u16,
    status_message: Seq<char>,
    headers: Seq<HeaderView>,
    compresses: bool,
) -> ResponseView {
    ResponseView {
        status_code: status_code,
        status_message: status_message,
        headers: headers,
        body: None,
        compresses: compresses,
    }
}

/// Whether `r` is the response of a handler with the given status, headers
/// and body, the body stored as [`HttpResponse::set_body`] stores it: its
/// header fields are the given ones, then `Content-Encoding: gzip` where
/// the body is stored in its gzip form, then `Content-Length`.
pub open spec fn replies(
    compresses: bool,
    status_code: u16,
    status_message: Seq<char>,
    headers: Seq<HeaderView>,
    body: Seq<u8>,
    r: ResponseView,
) -> bool {
    &&& given_body(blank(status_code, status_message, headers, compresses), body, r)
    &&& r.status_code == status_code
    &&& r.status_message == status_message
    &&& r.headers == headers_after(headers, compresses, body)
}

/// Whether `r` is the response to the request of `context` with the given
/// status, headers and body: see [`replies`]. The body is compressed where
/// the request declares support for gzip.
pub open spec fn answers(
    context: &HttpRequestContext,
    status_code: u16,
    status_message: Seq<char>,
    headers: Seq<HeaderView>,
    body: Seq<u8>,
    r: ResponseView,
) -> bool {
    replies(
        accepts_encoding(context.request@.headers, ENCODING_GZIP@),
        status_code,
        status_message,
        headers,
        body,
        r,
    )
}

/// Whether `r` is the response with the given status, headers and body
/// that belongs to no request and is never compressed: see [`replies`].
pub open spec fn states(
    status_code: u16,
    status_message: Seq<char>,
    headers: Seq<HeaderView>,
    body: Seq<u8>,
    r: ResponseView,
) -> bool {
    replies(false, status_code, status_message, headers, body, r)
}

/// A header list that holds `Content-Type` only, or nothing, holds neither
/// `Content-Length` nor `Content-Encoding`, so that a response made with it
/// that meets [`given_body`] meets [`replies`].
pub proof fn lemma_replies(
    compresses: bool,
    status_code: u16,
    status_message: Seq<char>,
    headers: Seq<HeaderView>,
    body: Seq<u8>,
    r: ResponseView,
)
    requires
        given_body(blank(status_code, status_message, headers, compresses), body, r),
        headers.len() == 0 || (headers.len() == 1 && headers[0].name == HDR_CONTENT_TYPE@),
    ensures
        replies(compresses, status_code, status_message, headers, body, r),
{
    lemma_content_names_differ();
    lemma_position_none(headers, HDR_CONTENT_LENGTH@);
    lemma_position_none(headers, HDR_CONTENT_ENCODING@);
    lemma_headers_after(blank(status_code, status_message, headers, compresses), body, r);
}

/// The user agent that a request reports: the value of its first
/// `User-Agent` header, or `Unknown`.
pub open spec fn user_agent(headers: Seq<HeaderView>) -> Seq<char> {
    match value_of(headers, HDR_USER_AGENT@) {
        Some(v) => v,
        None => UNKNOWN_USER_AGENT@,
    }
}

/// What has to happen for a request: a response that can be sent at once,
/// or a file operation whose outcome decides the response.
#[derive(Debug)]
pub enum Action<'a> {
    /// Send this response.
    Respond(HttpResponse<'a>),
    /// Read the stored file of this name, then answer with
    /// [`handle_get_file`].
    ReadFile { name: String },
    /// Replace the stored file of this name by these contents, then answer
    /// with [`handle_post_file`].
    WriteFile { name: String, contents: Vec<u8> },
}

/// Whether `action` is what the route `route` asks for the request of
/// `context`.
pub open spec fn performs(context: &HttpRequestContext, route: Route, action: Action) -> bool {
    let request = context.request@;
    match route {
        Route::Home => action matches Action::Respond(r) && r.wf() && answers(
            context,
            200,
            MSG_OK@,
            Seq::empty(),
            Seq::empty(),
            r@,
        ),
        Route::UserAgent => action matches Action::Respond(r) && r.wf() && answers(
            context,
            200,
            MSG_OK@,
            content_type(CT_TEXT_PLAIN@),
            encode_utf8(user_agent(request.headers)),
            r@,
        ),
        Route::Echo => action matches Action::Respond(r) && r.wf() && answers(
            context,
            200,
            MSG_OK@,
            content_type(CT_TEXT_PLAIN@),
            encode_utf8(remainder(request.path, ROUTE_ECHO@)),
            r@,
        ),
        Route::GetFile => action matches Action::ReadFile { name } && name@ == remainder(
            request.path,
            ROUTE_FILES@,
        ),
        Route::PostFile => action matches Action::WriteFile { name, contents } && name@
            == remainder(request.path, ROUTE_FILES@) && contents@ == body_bytes(request.body),
        Route::NotFound => action matches Action::Respond(r) && r.wf() && answers(
            context,
            404,
            MSG_NOT_FOUND@,
            Seq::empty(),
            Seq::empty(),
            r@,
        ),
        Route::MethodNotAllowed => action matches Action::Respond(r) && r.wf() && answers(
            context,
            405,
            MSG_METHOD_NOT_ALLOWED@,
            Seq::empty(),
            Seq::empty(),
            r@,
        ),
    }
}

/// The route of a request with the given method and path.
pub fn route(method: &str, path: &str) -> (r: Route)
    ensures
        r == route_of(method@, path@),
{
    let m = chars_of(method);
    let p = chars_of(path);
    if text_is(&m, METHOD_GET) {
        if text_is(&p, ROUTE_HOME) {
            Route::Home
        } else if text_is(&p, ROUTE_USER_AGENT) {
            Route::UserAgent
        } else if begins_with(&p, ROUTE_ECHO) {
            Route::Echo
        } else if begins_with(&p, ROUTE_FILES) {
            Route::GetFile
        } else {
            Route::NotFound
        }
    } else if text_is(&m, METHOD_POST) {
        if begins_with(&p, ROUTE_FILES) {
            Route::PostFile
        } else {
            Route::NotFound
        }
    } else {
        Route::MethodNotAllowed
    }
}

/// The bytes of what follows `prefix` in `path`.
fn remainder_bytes(path: &str, prefix: &str) -> (r: Vec<u8>)
    requires
        is_ascii_chars(prefix@),
    ensures
        r@ == encode_utf8(remainder(path@, prefix@)),
{
    let p = chars_of(path);
    if !begins_with(&p, prefix) {
        return Vec::new();
    }
    let bytes = path.as_bytes();
    let n = prefix.as_bytes().len();
    proof {
        let rest = path@.skip(prefix@.len() as int);
        assert(path@ =~= prefix@ + rest);
        lemma_encode_concat(prefix@, rest);
        is_ascii_chars_encode_utf8(prefix@);
        assert(n == encode_utf8(prefix@).len());
        assert(encode_utf8(path@) == encode_utf8(prefix@) + encode_utf8(rest));
        assert(encode_utf8(path@).subrange(n as int, encode_utf8(path@).len() as int) =~= encode_utf8(
            rest,
        ));
    }
    slice_to_vec(slice_subrange(bytes, n, bytes.len()))
}

/// The text of what follows `prefix` in `path`.
fn remainder_text(path: &str, prefix: &str) -> (r: String)
    requires
        is_ascii_chars(prefix@),
    ensures
        r@ == remainder(path@, prefix@),
{
    let bytes = remainder_bytes(path, prefix);
    proof {
        encode_utf8_valid_utf8(remainder(path@, prefix@));
        encode_utf8_decode_utf8(remainder(path@, prefix@));
    }
    decode_valid(bytes.as_slice())
}

/// The one-field header list that gives the media type `value`.
fn content_type_headers(value: &str) -> (r: Vec<HttpHeader>)
    ensures
        header_views(r@) == content_type(value@),
{
    let mut headers: Vec<HttpHeader> = Vec::new();
    headers.push(HttpHeader::new(HDR_CONTENT_TYPE.to_owned(), value.to_owned()));
    assert(header_views(headers@) =~= content_type(value@));
    headers
}

/// The header list of a handler's response: `Content-Type` with the media
/// type where one is given, and nothing otherwise.
pub open spec fn media_headers(media: Option<&str>) -> Seq<HeaderView> {
    match media {
        Some(m) => content_type(m@),
        None => Seq::empty(),
    }
}

/// The header list that holds `Content-Type` where a media type is given.
fn media_header_list(media: Option<&str>) -> (r: Option<Vec<HttpHeader>>)
    ensures
        given_headers(r) == media_headers(media),
{
    match media {
        Some(m) => Some(content_type_headers(m)),
        None => None,
    }
}

/// A response to the request of `context`.
fn reply<'a>(
    context: &'a HttpRequestContext,
    status_code: u16,
    status_message: &str,
    media: Option<&str>,
    body: Option<Vec<u8>>,
) -> (r: HttpResponse<'a>)
    ensures
        r.wf(),
        answers(
            context,
            status_code,
            status_message@,
            media_headers(media),
            body_bytes(bytes_view(body)),
            r@,
        ),
{
    let headers = media_header_list(media);
    let r = HttpResponse::new(context, status_code, status_message.to_owned(), headers, body);
    proof {
        lemma_replies(
            accepts_encoding(context.request@.headers, ENCODING_GZIP@),
            status_code,
            status_message@,
            media_headers(media),
            body_bytes(bytes_view(body)),
            r@,
        );
    }
    r
}

/// A response that belongs to no request.
fn statement<'a>(
    status_code: u16,
    status_message: &str,
    media: Option<&str>,
    body: Option<Vec<u8>>,
) -> (r: HttpResponse<'a>)
    ensures
        r.wf(),
        states(status_code, status_message@, media_headers(media), body_bytes(bytes_view(body)), r@),
{
    let headers = media_header_list(media);
    let r = HttpResponse::with_no_context(status_code, status_message.to_owned(), headers, body);
    proof {
        lemma_replies(
            false,
            status_code,
            status_message@,
            media_headers(media),
            body_bytes(bytes_view(body)),
            r@,
        );
    }
    r
}

/// `GET /`: 200 without a body.
pub fn handle_home<'a>(context: &'a HttpRequestContext) -> (r: HttpResponse<'a>)
    ensures
        r.wf(),
        answers(context, 200, MSG_OK@, Seq::empty(), Seq::empty(), r@),
{
    reply(context, 200, MSG_OK, None, None)
}

/// `GET /echo/{msg}`: 200 with what follows the prefix in the path as
/// plain text, not decoded.
pub fn handle_echo<'a>(context: &'a HttpRequestContext) -> (r: HttpResponse<'a>)
    ensures
        r.wf(),
        answers(
            context,
            200,
            MSG_OK@,
            content_type(CT_TEXT_PLAIN@),
            encode_utf8(remainder(context.request@.path, ROUTE_ECHO@)),
            r@,
        ),
{
    proof {
        reveal_strlit("/echo/");
    }
    let message = remainder_bytes(context.request.path.as_str(), ROUTE_ECHO);
    reply(context, 200, MSG_OK, Some(CT_TEXT_PLAIN), Some(message))
}

/// `GET /user-agent`: 200 with the value of the request's `User-Agent`
/// header as plain text, or `Unknown` where it has none.
pub fn handle_user_agent<'a>(context: &'a HttpRequestContext) -> (r: HttpResponse<'a>)
    ensures
        r.wf(),
        answers(
            context,
            200,
            MSG_OK@,
            content_type(CT_TEXT_PLAIN@),
            encode_utf8(user_agent(context.request@.headers)),
            r@,
        ),
{
    let agent: &str = match context.request.get_header(HDR_USER_AGENT) {
        Some(header) => header.value.as_str(),
        None => UNKNOWN_USER_AGENT,
    };
    let body = slice_to_vec(agent.as_bytes());
    reply(context, 200, MSG_OK, Some(CT_TEXT_PLAIN), Some(body))
}

/// The answer to `GET /files/{name}` once the file was looked up: 200 with
/// its bytes as `application/octet-stream` where it exists, 404 where it
/// does not.
pub fn handle_get_file<'a>(context: &'a HttpRequestContext, contents: Option<Vec<u8>>) -> (r:
    HttpResponse<'a>)
    ensures
        r.wf(),
        match contents {
            Some(bytes) => answers(
                context,
                200,
                MSG_OK@,
                content_type(CT_APP_OCTET_STREAM@),
                bytes@,
                r@,
            ),
            None => answers(context, 404, MSG_NOT_FOUND@, Seq::empty(), Seq::empty(), r@),
        },
{
    match contents {
        Some(bytes) => {
            reply(context, 200, MSG_OK, Some(CT_APP_OCTET_STREAM), Some(bytes))
        },
        None => handle_not_found(context),
    }
}

/// The answer to `POST /files/{name}` once the file was written: 201
/// without a body.
pub fn handle_post_file<'a>(context: &'a HttpRequestContext) -> (r: HttpResponse<'a>)
    ensures
        r.wf(),
        answers(context, 201, MSG_CREATED@, Seq::empty(), Seq::empty(), r@),
{
    reply(context, 201, MSG_CREATED, None, None)
}

/// 404 without a body.
pub fn handle_not_found<'a>(context: &'a HttpRequestContext) -> (r: HttpResponse<'a>)
    ensures
        r.wf(),
        answers(context, 404, MSG_NOT_FOUND@, Seq::empty(), Seq::empty(), r@),
{
    reply(context, 404, MSG_NOT_FOUND, None, None)
}

/// 405 without a body.
pub fn handle_method_not_allowed<'a>(context: &'a HttpRequestContext) -> (r: HttpResponse<'a>)
    ensures
        r.wf(),
        answers(context, 405, MSG_METHOD_NOT_ALLOWED@, Seq::empty(), Seq::empty(), r@),
{
    reply(context, 405, MSG_METHOD_NOT_ALLOWED, None, None)
}

/// 400 without a body, for bytes that are no request.
pub fn handle_bad_request<'a>() -> (r: HttpResponse<'a>)
    ensures
        r.wf(),
        states(400, MSG_BAD_REQUEST@, Seq::empty(), Seq::empty(), r@),
{
    statement(400, MSG_BAD_REQUEST, None, None)
}

/// 500 with the text of the failure as plain text.
pub fn handle_error<'a>(message: &str) -> (r: HttpResponse<'a>)
    ensures
        r.wf(),
        states(
            500,
            MSG_INTERNAL_SERVER_ERROR@,
            content_type(CT_TEXT_PLAIN@),
            encode_utf8(message@),
            r@,
        ),
{
    let body = slice_to_vec(message.as_bytes());
    statement(500, MSG_INTERNAL_SERVER_ERROR, Some(CT_TEXT_PLAIN), Some(body))
}

/// The response to bytes that could not be read as a request: 400 where
/// the request is malformed, 500 with the failure as text otherwise.
pub fn handle_failure<'a>(error: ParseError) -> (r: HttpResponse<'a>)
    ensures
        r.wf(),
        if error.is_protocol_error() {
            states(400, MSG_BAD_REQUEST@, Seq::empty(), Seq::empty(), r@)
        } else {
            states(
                500,
                MSG_INTERNAL_SERVER_ERROR@,
                content_type(CT_TEXT_PLAIN@),
                encode_utf8(error.text()),
                r@,
            )
        },
{
    match error {
        ParseError::MalformedRequestLine => handle_bad_request(),
        ParseError::MalformedHeader => handle_bad_request(),
        ParseError::InvalidContentLength => handle_bad_request(),
        ParseError::TruncatedBody => handle_error(error.to_string().as_str()),
        ParseError::InvalidEncoding => handle_error(error.to_string().as_str()),
    }
}

/// What has to happen for a `GET` request.
pub fn handle_get<'a>(context: &'a HttpRequestContext) -> (action: Action<'a>)
    ensures
        performs(context, get_route(context.request@.path), action),
{
    match route(METHOD_GET, context.request.path.as_str()) {
        Route::Home => Action::Respond(handle_home(context)),
        Route::UserAgent => Action::Respond(handle_user_agent(context)),
        Route::Echo => Action::Respond(handle_echo(context)),
        Route::GetFile => {
            proof {
                reveal_strlit("/files/");
            }
            Action::ReadFile { name: remainder_text(context.request.path.as_str(), ROUTE_FILES) }
        },
        _ => Action::Respond(handle_not_found(context)),
    }
}

/// What has to happen for a `POST` request. A request without a body
/// stores an empty file.
pub fn handle_post<'a>(context: &'a HttpRequestContext) -> (action: Action<'a>)
    ensures
        performs(context, post_route(context.request@.path), action),
{
    assert(METHOD_POST@ != METHOD_GET@) by {
        reveal_strlit("GET");
        reveal_strlit("POST");
        assert(METHOD_POST@.len() == 4);
        assert(METHOD_GET@.len() == 3);
    }
    match route(METHOD_POST, context.request.path.as_str()) {
        Route::PostFile => {
            proof {
                reveal_strlit("/files/");
            }
            let contents = match &context.request.body {
                Some(body) => slice_to_vec(body.as_slice()),
                None => Vec::new(),
            };
            let name = remainder_text(context.request.path.as_str(), ROUTE_FILES);
            Action::WriteFile { name, contents }
        },
        _ => Action::Respond(handle_not_found(context)),
    }
}

/// What has to happen for a request: the methods `GET` and `POST` are
/// routed by path, any other method is answered with 405.
pub fn handle_request<'a>(context: &'a HttpRequestContext) -> (action: Action<'a>)
    ensures
        performs(context, route_of(context.request@.method, context.request@.path), action),
{
    let method = chars_of(context.request.method.as_str());
    if text_is(&method, METHOD_GET) {
        handle_get(context)
    } else if text_is(&method, METHOD_POST) {
        handle_post(context)
    } else {
        Action::Respond(handle_method_not_allowed(context))
    }
}

} // verus!
