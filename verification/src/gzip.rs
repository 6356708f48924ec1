//! The gzip content coding.

use vstd::prelude::*;
use flate2::write::GzEncoder;
use flate2::Compression;
use std::io::Write;

verus! {

/// The gzip stream that the encoder writes for `data` at its default
/// compression level and with its default header. It is not spelled out
/// here.
pub uninterp spec fn gzip_stream(data: Seq<u8>) -> Seq<u8>;

/// Trusted: `flate2::write::GzEncoder` over a `Vec<u8>`, made by `new` with
/// `Compression::default()`, fed by `write_all` and closed by `finish`. Its
/// errors are those of the writer it writes to, of which a `Vec<u8>` has
/// none, and that of a deflate step with bad parameters, which the default
/// level does not give it: a stream always comes back. It is given the
/// name [`gzip_stream`], and it is never empty, since it begins with the
/// gzip header.
#[verifier::external_body]
pub(crate) fn gzip(data: &[u8]) -> (out: Option<Vec<u8>>)
    ensures
        out is Some,
        out matches Some(v) ==> v@ == gzip_stream(data@) && v@.len() > 0,
{
    let mut encoder = GzEncoder::new(Vec::new(), Compression::default());
    match encoder.write_all(data) {
        Ok(()) => encoder.finish().ok(),
        Err(_) => None,
    }
}

} // verus!
