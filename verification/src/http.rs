//! The message types and the names of headers, methods and media types, in
//! one place.

pub use crate::header::{
    HeaderView, HttpHeader, CT_APP_OCTET_STREAM, CT_TEXT_PLAIN, ENCODING_GZIP,
    HDR_ACCEPT_ENCODING, HDR_CONTENT_ENCODING, HDR_CONTENT_LENGTH, HDR_CONTENT_TYPE,
    HDR_USER_AGENT, METHOD_GET, METHOD_POST,
};
pub use crate::request::{HttpRequest, HttpRequestContext, RequestView};
pub use crate::response::{HttpResponse, ResponseView};
