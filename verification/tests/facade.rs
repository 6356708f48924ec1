use http_server::http::{
    HttpHeader, HttpRequest, HttpRequestContext, HttpResponse, CT_APP_OCTET_STREAM, CT_TEXT_PLAIN,
    ENCODING_GZIP, HDR_ACCEPT_ENCODING, HDR_CONTENT_ENCODING, HDR_CONTENT_LENGTH,
    HDR_CONTENT_TYPE, HDR_USER_AGENT, METHOD_GET, METHOD_POST,
};

#[test]
fn names_of_headers_methods_and_media_types() {
    assert_eq!(CT_TEXT_PLAIN, "text/plain");
    assert_eq!(CT_APP_OCTET_STREAM, "application/octet-stream");
    assert_eq!(ENCODING_GZIP, "gzip");
    assert_eq!(HDR_ACCEPT_ENCODING, "Accept-Encoding");
    assert_eq!(HDR_CONTENT_ENCODING, "Content-Encoding");
    assert_eq!(HDR_CONTENT_LENGTH, "Content-Length");
    assert_eq!(HDR_CONTENT_TYPE, "Content-Type");
    assert_eq!(HDR_USER_AGENT, "User-Agent");
    assert_eq!(METHOD_GET, "GET");
    assert_eq!(METHOD_POST, "POST");
}

#[test]
fn request_built_by_hand_is_answered() {
    let request = HttpRequest {
        method: METHOD_GET.to_string(),
        path: "/".to_string(),
        version: "HTTP/1.1".to_string(),
        headers: vec![HttpHeader::new(
            HDR_ACCEPT_ENCODING.to_string(),
            "deflate;q=0.5, GZIP".to_string(),
        )],
        body: None,
    };
    assert!(request.supports_encoding(ENCODING_GZIP));
    let context = HttpRequestContext::new(request, "files".to_string());
    let mut response = HttpResponse::new(
        &context,
        200,
        "OK".to_string(),
        Some(vec![HttpHeader::new(
            HDR_CONTENT_TYPE.to_string(),
            CT_TEXT_PLAIN.to_string(),
        )]),
        Some(b"hello hello hello hello".to_vec()),
    );
    assert_eq!(response.get_header_value(HDR_CONTENT_ENCODING), Some("gzip"));
    let stored = response.get_body().map(|b| b.len());
    let declared = response
        .get_header_value(HDR_CONTENT_LENGTH)
        .map(|v| v.parse::<usize>().unwrap());
    assert_eq!(stored, declared);
    let copy = response.clone();
    assert_eq!(copy.to_bytes(), response.to_bytes());
}
