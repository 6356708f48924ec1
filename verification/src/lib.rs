//! A minimal HTTP/1.1 message layer: request framing and parsing, response
//! construction and serialisation, routing, and the scheduling rules of a
//! bounded worker pool.

pub mod chars;
pub mod encoding;
pub mod framing;
pub mod gzip;
pub mod header;
pub mod http;
pub mod parse;
pub mod request;
pub mod response;
pub mod router;
pub mod text;
pub mod threadpool;
