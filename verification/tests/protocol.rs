use flate2::read::GzDecoder;
use http_server::header::{
    folded_names, header_index, index_of_text, names_match, remove_all, HttpHeader,
};
use http_server::parse::{
    content_length, parse_request, read_head, read_meta, read_request, ParseError, Progress,
};
use http_server::request::{list_has_item, HttpRequest, HttpRequestContext};
use http_server::response::{decimal_string, HttpResponse};
use http_server::router::{
    handle_bad_request, handle_error, handle_failure, handle_get, handle_get_file, handle_home,
    handle_method_not_allowed, handle_not_found, handle_post, handle_post_file, handle_request,
    route, Action, Route,
};
use std::io::Read;

fn request(bytes: &[u8]) -> HttpRequest {
    match parse_request(bytes) {
        Ok(r) => r,
        Err(e) => panic!("no request: {:?}", e),
    }
}

fn context(bytes: &[u8]) -> HttpRequestContext {
    HttpRequestContext::new(request(bytes), "store".to_string())
}

fn respond(context: &HttpRequestContext) -> Vec<u8> {
    match handle_request(context) {
        Action::Respond(response) => response.to_bytes(),
        other => panic!("no response: {:?}", other),
    }
}

fn split_wire(wire: &[u8]) -> (String, Vec<u8>) {
    let at = wire
        .windows(4)
        .position(|w| w == b"\r\n\r\n")
        .expect("an empty line ends the head");
    (
        String::from_utf8(wire[..at].to_vec()).expect("the head is text"),
        wire[at + 4..].to_vec(),
    )
}

fn gunzip(bytes: &[u8]) -> Vec<u8> {
    let mut out = Vec::new();
    GzDecoder::new(bytes)
        .read_to_end(&mut out)
        .expect("a gzip stream");
    out
}

#[test]
fn parses_request_line_and_headers() {
    let r = request(b"GET /index.html?x=1#top HTTP/1.1\r\nHost: example\r\nX-Empty: \r\n\r\n");
    assert_eq!(r.method, "GET");
    assert_eq!(r.path, "/index.html?x=1#top");
    assert_eq!(r.version, "HTTP/1.1");
    assert_eq!(r.headers.len(), 2);
    assert_eq!(r.headers[0].name, "Host");
    assert_eq!(r.headers[0].value, "example");
    assert_eq!(r.headers[1].name, "X-Empty");
    assert_eq!(r.headers[1].value, "");
    assert!(r.body.is_none());
}

#[test]
fn header_value_is_cut_at_the_first_separator() {
    let r = request(b"GET / HTTP/1.1\r\nA: b: c\r\nD:: e\r\n\r\n");
    assert_eq!(r.headers[0].name, "A");
    assert_eq!(r.headers[0].value, "b: c");
    assert_eq!(r.headers[1].name, "D:");
    assert_eq!(r.headers[1].value, "e");
}

#[test]
fn body_has_the_declared_length() {
    let r = request(b"POST /files/a HTTP/1.1\r\ncontent-length: 3\r\n\r\nabcdef");
    assert_eq!(r.body, Some(b"abc".to_vec()));
}

#[test]
fn no_body_without_content_length() {
    let r = request(b"POST /files/a HTTP/1.1\r\n\r\nabcdef");
    assert!(r.body.is_none());
}

#[test]
fn no_body_with_content_length_zero() {
    let r = request(b"POST /files/a HTTP/1.1\r\nContent-Length: 0\r\n\r\nabc");
    assert!(r.body.is_none());
}

#[test]
fn first_content_length_counts() {
    let r = request(b"POST / HTTP/1.1\r\nContent-Length: 2\r\nContent-Length: 4\r\n\r\nabcdef");
    assert_eq!(r.body, Some(b"ab".to_vec()));
}

#[test]
fn content_length_may_carry_a_plus_sign() {
    let r = request(b"POST / HTTP/1.1\r\nContent-Length: +2\r\n\r\nabcdef");
    assert_eq!(r.body, Some(b"ab".to_vec()));
}

#[test]
fn lone_line_feed_ends_no_line() {
    let r = request(b"GET / HTTP/1.1\r\nA: b\nc\r\n\r\n");
    assert_eq!(r.headers.len(), 1);
    assert_eq!(r.headers[0].value, "b\nc");
}

#[test]
fn head_may_end_with_the_stream() {
    let r = request(b"GET /user-agent HTTP/1.1\r\nUser-Agent: x");
    assert_eq!(r.path, "/user-agent");
    assert_eq!(r.headers.len(), 1);
    assert_eq!(r.headers[0].value, "x");
}

#[test]
fn text_outside_ascii_is_decoded() {
    let r = request("GET /echo/caf\u{e9} HTTP/1.1\r\nX-N\u{e4}me: \u{4e16}\u{754c}\r\n\r\n".as_bytes());
    assert_eq!(r.path, "/echo/caf\u{e9}");
    assert_eq!(r.headers[0].name, "X-N\u{e4}me");
    assert_eq!(r.headers[0].value, "\u{4e16}\u{754c}");
}

#[test]
fn malformed_request_line_two_tokens() {
    assert_eq!(
        parse_request(b"GET /\r\n\r\n").err(),
        Some(ParseError::MalformedRequestLine)
    );
}

#[test]
fn malformed_request_line_four_tokens() {
    assert_eq!(
        parse_request(b"GET  / HTTP/1.1\r\n\r\n").err(),
        Some(ParseError::MalformedRequestLine)
    );
}

#[test]
fn malformed_request_line_nothing_sent() {
    assert_eq!(
        parse_request(b"").err(),
        Some(ParseError::MalformedRequestLine)
    );
    assert_eq!(
        parse_request(b"\r\n").err(),
        Some(ParseError::MalformedRequestLine)
    );
}

#[test]
fn malformed_header() {
    assert_eq!(
        parse_request(b"GET / HTTP/1.1\r\nHost:example\r\n\r\n").err(),
        Some(ParseError::MalformedHeader)
    );
}

#[test]
fn invalid_content_length() {
    for value in ["abc", "", "-1", "1 ", " 1", "+", "1.5", "99999999999999999999999999"] {
        let text = format!("POST / HTTP/1.1\r\nContent-Length: {}\r\n\r\n", value);
        assert_eq!(
            parse_request(text.as_bytes()).err(),
            Some(ParseError::InvalidContentLength)
        );
    }
}

#[test]
fn truncated_body() {
    assert_eq!(
        parse_request(b"POST / HTTP/1.1\r\nContent-Length: 4\r\n\r\nabc").err(),
        Some(ParseError::TruncatedBody)
    );
}

#[test]
fn invalid_encoding() {
    assert_eq!(
        parse_request(b"GET /\xff HTTP/1.1\r\n\r\n").err(),
        Some(ParseError::InvalidEncoding)
    );
    assert_eq!(
        parse_request(b"GET /\r\nX: \xc3\r\n\r\n").err(),
        Some(ParseError::InvalidEncoding)
    );
}

#[test]
fn body_bytes_need_not_be_text() {
    let r = request(b"POST / HTTP/1.1\r\nContent-Length: 2\r\n\r\n\xff\xfe");
    assert_eq!(r.body, Some(vec![0xff, 0xfe]));
}

#[test]
fn error_texts() {
    assert_eq!(ParseError::MalformedRequestLine.to_string(), "malformed request line");
    assert_eq!(ParseError::MalformedHeader.to_string(), "malformed header");
    assert_eq!(ParseError::InvalidContentLength.to_string(), "invalid content length");
    assert_eq!(ParseError::TruncatedBody.to_string(), "truncated body");
    assert_eq!(ParseError::InvalidEncoding.to_string(), "request is not valid UTF-8");
}

#[test]
fn reading_asks_for_the_head() {
    assert!(matches!(read_request(b"", false), Progress::NeedHead));
    assert!(matches!(read_request(b"GET / HTTP/1.1\r\n", false), Progress::NeedHead));
    assert!(matches!(
        read_request(b"GET / HTTP/1.1\r\nHost: x\r\n\r", false),
        Progress::NeedHead
    ));
}

#[test]
fn reading_asks_for_the_body() {
    match read_request(b"POST / HTTP/1.1\r\nContent-Length: 10\r\n\r\nabc", false) {
        Progress::NeedBody(missing) => assert_eq!(missing, 7),
        other => panic!("{:?}", other),
    }
}

#[test]
fn reading_ends_with_the_request() {
    match read_request(b"POST / HTTP/1.1\r\nContent-Length: 3\r\n\r\nabc", false) {
        Progress::Ready(r) => assert_eq!(r.body, Some(b"abc".to_vec())),
        other => panic!("{:?}", other),
    }
    match read_request(b"GET / HTTP/1.1\r\n\r\n", false) {
        Progress::Ready(r) => assert!(r.body.is_none()),
        other => panic!("{:?}", other),
    }
}

#[test]
fn reading_fails_early() {
    assert!(matches!(
        read_request(b"GET /\r\n\r\n", false),
        Progress::Failed(ParseError::MalformedRequestLine)
    ));
    assert!(matches!(
        read_request(b"POST / HTTP/1.1\r\nContent-Length: 4\r\n\r\nabc", true),
        Progress::Failed(ParseError::TruncatedBody)
    ));
}

#[test]
fn meta_block_lines_and_body_offset() {
    let (lines, body) = read_meta(b"a\r\nbc\r\n\r\nrest", false).expect("complete");
    assert_eq!(lines, vec![b"a".to_vec(), b"bc".to_vec()]);
    assert_eq!(body, 9);
    assert!(read_meta(b"a\r\nbc\r\n", false).is_none());
    let (lines, body) = read_meta(b"a\r\nbc", true).expect("complete at the end");
    assert_eq!(lines, vec![b"a".to_vec(), b"bc".to_vec()]);
    assert_eq!(body, 5);
    let (lines, body) = read_meta(b"\r\n\r\n", false).expect("complete");
    assert!(lines.is_empty());
    assert_eq!(body, 2);
}

#[test]
fn head_of_lines() {
    let lines = vec![b"PUT /x HTTP/1.0".to_vec(), b"K: v".to_vec()];
    let r = read_head(&lines).expect("a head");
    assert_eq!(r.method, "PUT");
    assert_eq!(r.path, "/x");
    assert_eq!(r.version, "HTTP/1.0");
    assert_eq!(r.headers.len(), 1);
    assert!(r.body.is_none());
}

#[test]
fn declared_content_length() {
    let with = vec![HttpHeader::new("CONTENT-LENGTH".to_string(), "0042".to_string())];
    assert_eq!(content_length(&with), Ok(Some(42)));
    let without: Vec<HttpHeader> = Vec::new();
    assert_eq!(content_length(&without), Ok(None));
    let bad = vec![HttpHeader::new("Content-Length".to_string(), "x".to_string())];
    assert_eq!(content_length(&bad), Err(ParseError::InvalidContentLength));
}

#[test]
fn header_new_and_line() {
    let h = HttpHeader::new("Content-Type".to_string(), "text/plain".to_string());
    assert_eq!(h.name, "Content-Type");
    assert_eq!(h.value, "text/plain");
    assert_eq!(h.to_string(), "Content-Type: text/plain");
    let copy = h.duplicate();
    assert_eq!(copy.name, h.name);
    assert_eq!(copy.value, h.value);
}

#[test]
fn header_names_ignore_case() {
    assert!(names_match("Content-Length", "content-length"));
    assert!(names_match("CONTENT-LENGTH", "Content-Length"));
    assert!(names_match("\u{c9}tag", "\u{e9}TAG"));
    assert!(!names_match("Content-Length", "Content-Encoding"));
    assert!(!names_match("Content-Length", "Content_Length"));
}

#[test]
fn header_index_finds_the_first() {
    let headers = vec![
        HttpHeader::new("A".to_string(), "1".to_string()),
        HttpHeader::new("b".to_string(), "2".to_string()),
        HttpHeader::new("B".to_string(), "3".to_string()),
    ];
    assert_eq!(header_index(&headers, "B"), Some(1));
    assert_eq!(header_index(&headers, "a"), Some(0));
    assert_eq!(header_index(&headers, "c"), None);
}

#[test]
fn names_are_folded_then_found() {
    let headers = vec![
        HttpHeader::new("Content-TYPE".to_string(), "1".to_string()),
        HttpHeader::new("\u{c9}tag".to_string(), "2".to_string()),
    ];
    let names = folded_names(&headers);
    assert_eq!(names, vec!["content-type".to_string(), "\u{e9}tag".to_string()]);
    assert_eq!(index_of_text(&names, &"\u{e9}tag".to_string()), Some(1));
    assert_eq!(index_of_text(&names, &"Content-TYPE".to_string()), None);
    let twice = vec!["b".to_string(), "a".to_string(), "a".to_string()];
    assert_eq!(index_of_text(&twice, &"a".to_string()), Some(1));
    assert_eq!(index_of_text(&Vec::new(), &"a".to_string()), None);
}

#[test]
fn list_items_are_trimmed_and_compared_exactly() {
    assert!(list_has_item("gzip, deflate", "gzip"));
    assert!(list_has_item("gzip, deflate", "deflate"));
    assert!(list_has_item(" a ,\tb\t", "b"));
    assert!(list_has_item("a,,b", ""));
    assert!(list_has_item("", ""));
    assert!(!list_has_item("gzip, deflate", "GZIP"));
    assert!(!list_has_item("gzip, deflate", "gzip, deflate"));
    assert!(!list_has_item("gzip", " gzip"));
    assert!(!list_has_item("g zip", "gzip"));
}

#[test]
fn request_get_header_ignores_case() {
    let r = request(b"GET / HTTP/1.1\r\nuser-agent: one\r\nUser-Agent: two\r\n\r\n");
    let h = r.get_header("USER-AGENT").expect("present");
    assert_eq!(h.name, "user-agent");
    assert_eq!(h.value, "one");
    assert!(r.get_header("Host").is_none());
}

#[test]
fn supports_encoding_reads_the_list() {
    let r = request(b"GET / HTTP/1.1\r\nAccept-Encoding: gzip, deflate\r\n\r\n");
    assert!(r.supports_encoding("gzip"));
    assert!(r.supports_encoding("deflate"));
    assert!(r.supports_encoding("GZIP"));
    assert!(!r.supports_encoding("br"));
    assert!(!r.supports_encoding("gzi"));
    assert!(!r.supports_encoding(" gzip"));
}

#[test]
fn supports_encoding_trims_and_folds_case() {
    let r = request(b"GET / HTTP/1.1\r\naccept-encoding: br ,\t GZip \t,identity\r\n\r\n");
    assert!(r.supports_encoding("gzip"));
    assert!(r.supports_encoding("br"));
    assert!(r.supports_encoding("identity"));
    assert!(!r.supports_encoding("deflate"));
}

#[test]
fn supports_encoding_without_the_header() {
    let r = request(b"GET / HTTP/1.1\r\nAccept: gzip\r\n\r\n");
    assert!(!r.supports_encoding("gzip"));
    let identity = request(b"GET / HTTP/1.1\r\nAccept-Encoding: identity\r\n\r\n");
    assert!(!identity.supports_encoding("gzip"));
    let parameters = request(b"GET / HTTP/1.1\r\nAccept-Encoding: gzip;q=1\r\n\r\n");
    assert!(!parameters.supports_encoding("gzip"));
}

#[test]
fn supports_encoding_reads_the_first_header_only() {
    let r = request(
        b"GET / HTTP/1.1\r\nAccept-Encoding: identity\r\nAccept-Encoding: gzip\r\n\r\n",
    );
    assert!(!r.supports_encoding("gzip"));
}

#[test]
fn context_binds_request_and_directory() {
    let c = HttpRequestContext::new(request(b"GET / HTTP/1.1\r\n\r\n"), "/tmp/files".to_string());
    assert_eq!(c.request.method, "GET");
    assert_eq!(c.file_directory, "/tmp/files");
}

#[test]
fn decimal_rendering() {
    assert_eq!(decimal_string(0), "0");
    assert_eq!(decimal_string(7), "7");
    assert_eq!(decimal_string(10), "10");
    assert_eq!(decimal_string(65535), "65535");
    assert_eq!(decimal_string(1234567890), "1234567890");
}

#[test]
fn serialises_status_headers_and_body() {
    let headers = vec![
        HttpHeader::new("X-One".to_string(), "1".to_string()),
        HttpHeader::new("Content-Type".to_string(), "text/plain".to_string()),
    ];
    let r = HttpResponse::with_no_context(
        200,
        "OK".to_string(),
        Some(headers),
        Some(b"hello".to_vec()),
    );
    assert_eq!(
        r.to_bytes(),
        b"HTTP/1.1 200 OK\r\nX-One: 1\r\nContent-Type: text/plain\r\nContent-Length: 5\r\n\r\nhello"
            .to_vec()
    );
}

#[test]
fn serialises_without_headers_and_body() {
    let r = HttpResponse::with_no_context(404, "Not Found".to_string(), None, None);
    assert_eq!(r.to_bytes(), b"HTTP/1.1 404 Not Found\r\n\r\n".to_vec());
    assert!(r.get_body().is_none());
}

#[test]
fn round_trip_framing() {
    let body: Vec<u8> = (0u8..=255).collect();
    let r = HttpResponse::with_no_context(
        200,
        "OK".to_string(),
        Some(vec![HttpHeader::new("Content-Type".to_string(), "x/y".to_string())]),
        Some(body.clone()),
    );
    let (head, rest) = split_wire(&r.to_bytes());
    assert_eq!(rest, body);
    let lines: Vec<&str> = head.split("\r\n").collect();
    assert_eq!(lines, vec!["HTTP/1.1 200 OK", "Content-Type: x/y", "Content-Length: 256"]);
}

#[test]
fn set_body_empty_removes_length_and_encoding() {
    let headers = vec![
        HttpHeader::new("content-length".to_string(), "9".to_string()),
        HttpHeader::new("Keep".to_string(), "me".to_string()),
        HttpHeader::new("Content-Encoding".to_string(), "gzip".to_string()),
        HttpHeader::new("CONTENT-LENGTH".to_string(), "10".to_string()),
    ];
    let mut r = HttpResponse::with_no_context(200, "OK".to_string(), Some(headers), None);
    assert_eq!(r.headers.len(), 1);
    assert_eq!(r.headers[0].name, "Keep");
    r.set_body(b"abc".to_vec());
    assert_eq!(r.get_header_value("Content-Length"), Some("3"));
    r.set_body(Vec::new());
    assert!(r.get_body().is_none());
    assert!(r.get_header_value("Content-Length").is_none());
    assert!(r.get_header_value("Content-Encoding").is_none());
    assert_eq!(r.headers.len(), 1);
}

#[test]
fn set_body_sets_the_length_of_what_is_stored() {
    let mut r = HttpResponse::with_no_context(200, "OK".to_string(), None, None);
    r.set_body(vec![7u8; 1000]);
    assert_eq!(r.get_header_value("content-length"), Some("1000"));
    assert_eq!(r.get_body().map(|b| b.len()), Some(1000));
    r.set_body(vec![7u8; 12]);
    assert_eq!(r.get_header_value("content-length"), Some("12"));
    assert_eq!(r.headers.len(), 1);
}

#[test]
fn set_body_without_negotiation_drops_stale_encoding() {
    let headers = vec![HttpHeader::new("Content-Encoding".to_string(), "gzip".to_string())];
    let r = HttpResponse::with_no_context(
        200,
        "OK".to_string(),
        Some(headers),
        Some(b"plain".to_vec()),
    );
    assert_eq!(r.get_body(), Some(&b"plain"[..]));
    assert_eq!(r.headers.len(), 1);
    assert_eq!(r.headers[0].name, "Content-Length");
    assert_eq!(r.headers[0].value, "5");
}

#[test]
fn gzip_is_negotiated() {
    let c = context(b"GET /echo/abc HTTP/1.1\r\nAccept-Encoding: gzip, deflate\r\n\r\n");
    let content = b"the same words again and again and again and again".to_vec();
    let mut r = HttpResponse::new(&c, 200, "OK".to_string(), None, Some(content.clone()));
    let stored = r.get_body().expect("a body").to_vec();
    assert_ne!(stored, content);
    assert_eq!(&stored[..3], &[0x1f, 0x8b, 8]);
    assert_eq!(gunzip(&stored), content);
    assert_eq!(r.get_header_value("Content-Encoding"), Some("gzip"));
    let length = stored.len().to_string();
    assert_eq!(r.get_header_value("Content-Length"), Some(length.as_str()));
    let (head, rest) = split_wire(&r.to_bytes());
    assert_eq!(rest, stored);
    assert!(head.contains(&format!("Content-Length: {}", stored.len())));
}

#[test]
fn gzip_is_not_used_unasked() {
    let content = b"content".to_vec();
    for head in [
        &b"GET / HTTP/1.1\r\nAccept-Encoding: identity\r\n\r\n"[..],
        &b"GET / HTTP/1.1\r\n\r\n"[..],
    ] {
        let c = context(head);
        let mut r = HttpResponse::new(&c, 200, "OK".to_string(), None, Some(content.clone()));
        assert_eq!(r.get_body(), Some(&content[..]));
        assert!(r.get_header_value("Content-Encoding").is_none());
        assert_eq!(r.get_header_value("Content-Length"), Some("7"));
    }
}

#[test]
fn store_body_takes_the_encoded_form_only_where_negotiated() {
    let asked = context(b"GET / HTTP/1.1\r\nAccept-Encoding: gzip\r\n\r\n");
    let mut r = HttpResponse::new(&asked, 200, "OK".to_string(), None, None);
    r.store_body(b"plain".to_vec(), Some(b"zz".to_vec()));
    assert_eq!(r.get_body(), Some(&b"zz"[..]));
    assert_eq!(r.get_header_value("Content-Encoding"), Some("gzip"));
    assert_eq!(r.get_header_value("Content-Length"), Some("2"));
    r.store_body(b"plain".to_vec(), None);
    assert_eq!(r.get_body(), Some(&b"plain"[..]));
    assert!(r.get_header_value("Content-Encoding").is_none());
    assert_eq!(r.get_header_value("Content-Length"), Some("5"));
    r.store_body(b"plain".to_vec(), Some(Vec::new()));
    assert_eq!(r.get_body(), Some(&b"plain"[..]));
    assert!(r.get_header_value("Content-Encoding").is_none());

    let mut unasked = HttpResponse::with_no_context(200, "OK".to_string(), None, None);
    unasked.store_body(b"plain".to_vec(), Some(b"zz".to_vec()));
    assert_eq!(unasked.get_body(), Some(&b"plain"[..]));
    assert!(unasked.get_header_value("Content-Encoding").is_none());
}

#[test]
fn set_or_add_replaces_the_first_or_appends() {
    let headers = vec![
        HttpHeader::new("a".to_string(), "1".to_string()),
        HttpHeader::new("A".to_string(), "2".to_string()),
    ];
    let mut r = HttpResponse::with_no_context(200, "OK".to_string(), Some(headers), None);
    r.set_or_add_header_value("A", "3".to_string());
    assert_eq!(r.headers.len(), 2);
    assert_eq!((r.headers[0].name.as_str(), r.headers[0].value.as_str()), ("a", "3"));
    assert_eq!((r.headers[1].name.as_str(), r.headers[1].value.as_str()), ("A", "2"));
    r.set_or_add_header_value("B", "4".to_string());
    assert_eq!(r.headers.len(), 3);
    assert_eq!((r.headers[2].name.as_str(), r.headers[2].value.as_str()), ("B", "4"));
}

#[test]
fn remove_header_removes_the_first_match_only() {
    let headers = vec![
        HttpHeader::new("x".to_string(), "1".to_string()),
        HttpHeader::new("y".to_string(), "2".to_string()),
        HttpHeader::new("X".to_string(), "3".to_string()),
    ];
    let mut r = HttpResponse::with_no_context(200, "OK".to_string(), Some(headers), None);
    r.remove_header("X");
    assert_eq!(r.headers.len(), 2);
    assert_eq!(r.headers[0].name, "y");
    assert_eq!(r.headers[1].value, "3");
    r.remove_header("absent");
    assert_eq!(r.headers.len(), 2);
}

#[test]
fn remove_all_removes_every_match() {
    let mut headers = vec![
        HttpHeader::new("x".to_string(), "1".to_string()),
        HttpHeader::new("y".to_string(), "2".to_string()),
        HttpHeader::new("X".to_string(), "3".to_string()),
    ];
    remove_all(&mut headers, "X");
    assert_eq!(headers.len(), 1);
    assert_eq!(headers[0].name, "y");
}

#[test]
fn response_header_accessors() {
    let headers = vec![HttpHeader::new("Server".to_string(), "one".to_string())];
    let mut r = HttpResponse::with_no_context(200, "OK".to_string(), Some(headers), None);
    assert_eq!(r.get_header_index("server"), Some(0));
    assert_eq!(r.get_header_index("other"), None);
    assert_eq!(r.get_header_value("SERVER"), Some("one"));
    match r.get_header("server") {
        Some(h) => h.value = "two".to_string(),
        None => panic!("present"),
    }
    assert_eq!(r.get_header_value("Server"), Some("two"));
    assert!(r.get_header("other").is_none());
    assert_eq!(r.status_code, 200);
    assert_eq!(r.status_message, "OK");
}

#[test]
fn routes() {
    assert_eq!(route("GET", "/"), Route::Home);
    assert_eq!(route("GET", "/user-agent"), Route::UserAgent);
    assert_eq!(route("GET", "/echo/x"), Route::Echo);
    assert_eq!(route("GET", "/echo/"), Route::Echo);
    assert_eq!(route("GET", "/files/x"), Route::GetFile);
    assert_eq!(route("GET", "/echo"), Route::NotFound);
    assert_eq!(route("GET", "/user-agent/"), Route::NotFound);
    assert_eq!(route("GET", ""), Route::NotFound);
    assert_eq!(route("POST", "/files/x"), Route::PostFile);
    assert_eq!(route("POST", "/"), Route::NotFound);
    assert_eq!(route("POST", "/echo/x"), Route::NotFound);
    assert_eq!(route("PUT", "/"), Route::MethodNotAllowed);
    assert_eq!(route("get", "/"), Route::MethodNotAllowed);
    assert_eq!(route("", "/"), Route::MethodNotAllowed);
}

#[test]
fn echo_end_to_end() {
    let c = context(b"GET /echo/hello%20world HTTP/1.1\r\n\r\n");
    assert_eq!(
        respond(&c),
        b"HTTP/1.1 200 OK\r\nContent-Type: text/plain\r\nContent-Length: 13\r\n\r\nhello%20world"
            .to_vec()
    );
}

#[test]
fn echo_of_nothing_has_no_body() {
    let c = context(b"GET /echo/ HTTP/1.1\r\n\r\n");
    assert_eq!(
        respond(&c),
        b"HTTP/1.1 200 OK\r\nContent-Type: text/plain\r\n\r\n".to_vec()
    );
}

#[test]
fn echo_is_compressed_where_asked() {
    let c = context(b"GET /echo/aaaaaaaaaaaaaaaaaaaaaaaaaaaaaaaa HTTP/1.1\r\nAccept-Encoding: gzip\r\n\r\n");
    let (head, body) = split_wire(&respond(&c));
    assert!(head.starts_with("HTTP/1.1 200 OK\r\nContent-Type: text/plain\r\nContent-Encoding: gzip\r\n"));
    assert!(head.ends_with(&format!("Content-Length: {}", body.len())));
    assert_eq!(gunzip(&body), b"aaaaaaaaaaaaaaaaaaaaaaaaaaaaaaaa".to_vec());
}

#[test]
fn user_agent_is_reported() {
    let c = context(b"GET /user-agent HTTP/1.1\r\nuser-agent: curl/8.0\r\n\r\n");
    assert_eq!(
        respond(&c),
        b"HTTP/1.1 200 OK\r\nContent-Type: text/plain\r\nContent-Length: 8\r\n\r\ncurl/8.0".to_vec()
    );
}

#[test]
fn user_agent_fallback() {
    let c = context(b"GET /user-agent HTTP/1.1\r\nHost: x\r\n\r\n");
    assert_eq!(
        respond(&c),
        b"HTTP/1.1 200 OK\r\nContent-Type: text/plain\r\nContent-Length: 7\r\n\r\nUnknown".to_vec()
    );
}

#[test]
fn home_not_found_and_method_not_allowed() {
    let home = context(b"GET / HTTP/1.1\r\n\r\n");
    assert_eq!(respond(&home), b"HTTP/1.1 200 OK\r\n\r\n".to_vec());
    assert_eq!(handle_home(&home).to_bytes(), b"HTTP/1.1 200 OK\r\n\r\n".to_vec());
    let missing = context(b"GET /nothing HTTP/1.1\r\n\r\n");
    assert_eq!(respond(&missing), b"HTTP/1.1 404 Not Found\r\n\r\n".to_vec());
    assert_eq!(
        handle_not_found(&missing).to_bytes(),
        b"HTTP/1.1 404 Not Found\r\n\r\n".to_vec()
    );
    let delete = context(b"DELETE /files/a HTTP/1.1\r\n\r\n");
    assert_eq!(
        respond(&delete),
        b"HTTP/1.1 405 Method Not Allowed\r\n\r\n".to_vec()
    );
    assert_eq!(
        handle_method_not_allowed(&delete).to_bytes(),
        b"HTTP/1.1 405 Method Not Allowed\r\n\r\n".to_vec()
    );
    let post = context(b"POST /echo/x HTTP/1.1\r\n\r\n");
    assert_eq!(respond(&post), b"HTTP/1.1 404 Not Found\r\n\r\n".to_vec());
}

#[test]
fn file_round_trip() {
    let mut store: Vec<(String, Vec<u8>)> = Vec::new();

    let post = context(b"POST /files/a.txt HTTP/1.1\r\nContent-Length: 3\r\n\r\nabc");
    match handle_request(&post) {
        Action::WriteFile { name, contents } => {
            assert_eq!(name, "a.txt");
            assert_eq!(contents, b"abc".to_vec());
            store.retain(|(n, _)| *n != name);
            store.push((name, contents));
        }
        other => panic!("{:?}", other),
    }
    assert_eq!(
        handle_post_file(&post).to_bytes(),
        b"HTTP/1.1 201 Created\r\n\r\n".to_vec()
    );

    let get = context(b"GET /files/a.txt HTTP/1.1\r\n\r\n");
    let found = match handle_request(&get) {
        Action::ReadFile { name } => {
            assert_eq!(name, "a.txt");
            store.iter().find(|(n, _)| *n == name).map(|(_, c)| c.clone())
        }
        other => panic!("{:?}", other),
    };
    assert_eq!(
        handle_get_file(&get, found).to_bytes(),
        b"HTTP/1.1 200 OK\r\nContent-Type: application/octet-stream\r\nContent-Length: 3\r\n\r\nabc"
            .to_vec()
    );

    let absent = context(b"GET /files/missing.txt HTTP/1.1\r\n\r\n");
    let found = match handle_request(&absent) {
        Action::ReadFile { name } => {
            assert_eq!(name, "missing.txt");
            store.iter().find(|(n, _)| *n == name).map(|(_, c)| c.clone())
        }
        other => panic!("{:?}", other),
    };
    assert_eq!(
        handle_get_file(&absent, found).to_bytes(),
        b"HTTP/1.1 404 Not Found\r\n\r\n".to_vec()
    );
}

#[test]
fn post_without_body_stores_an_empty_file() {
    let post = context(b"POST /files/empty HTTP/1.1\r\n\r\n");
    match handle_post(&post) {
        Action::WriteFile { name, contents } => {
            assert_eq!(name, "empty");
            assert!(contents.is_empty());
        }
        other => panic!("{:?}", other),
    }
}

#[test]
fn get_and_post_route_by_path() {
    let c = context(b"GET /files/dir/name%20x HTTP/1.1\r\n\r\n");
    match handle_get(&c) {
        Action::ReadFile { name } => assert_eq!(name, "dir/name%20x"),
        other => panic!("{:?}", other),
    }
    let other = context(b"POST /nothing HTTP/1.1\r\n\r\n");
    match handle_post(&other) {
        Action::Respond(r) => assert_eq!(r.status_code, 404),
        other => panic!("{:?}", other),
    }
}

#[test]
fn empty_file_is_served_without_body() {
    let get = context(b"GET /files/empty HTTP/1.1\r\n\r\n");
    assert_eq!(
        handle_get_file(&get, Some(Vec::new())).to_bytes(),
        b"HTTP/1.1 200 OK\r\nContent-Type: application/octet-stream\r\n\r\n".to_vec()
    );
}

#[test]
fn malformed_input_is_a_bad_request() {
    let error = parse_request(b"GET /\r\n\r\n").err().expect("malformed");
    assert_eq!(
        handle_failure(error).to_bytes(),
        b"HTTP/1.1 400 Bad Request\r\n\r\n".to_vec()
    );
    assert_eq!(
        handle_bad_request().to_bytes(),
        b"HTTP/1.1 400 Bad Request\r\n\r\n".to_vec()
    );
    for error in [ParseError::MalformedHeader, ParseError::InvalidContentLength] {
        assert_eq!(handle_failure(error).status_code, 400);
    }
}

#[test]
fn transport_failure_is_a_server_error() {
    assert_eq!(
        handle_failure(ParseError::TruncatedBody).to_bytes(),
        b"HTTP/1.1 500 Internal Server Error\r\nContent-Type: text/plain\r\nContent-Length: 14\r\n\r\ntruncated body"
            .to_vec()
    );
    assert_eq!(handle_failure(ParseError::InvalidEncoding).status_code, 500);
    assert_eq!(
        handle_error("timed out").to_bytes(),
        b"HTTP/1.1 500 Internal Server Error\r\nContent-Type: text/plain\r\nContent-Length: 9\r\n\r\ntimed out"
            .to_vec()
    );
}
