//! The zlib streams in which objects are stored.

use std::io::Read;
use std::io::Write;
use vstd::prelude::*;

verus! {

/// The zlib stream that the encoder makes of a byte sequence at the
/// default compression level, or `None` where it fails.
pub uninterp spec fn zlib_deflated(data: Seq<u8>) -> Option<Seq<u8>>;

/// The bytes that the decoder reads out of a zlib stream, or `None` where
/// it rejects the stream.
pub uninterp spec fn zlib_inflated(stream: Seq<u8>) -> Option<Seq<u8>>;

/// Calls `ZlibEncoder::new` of `flate2` on an empty vector with
/// `Compression::default()`, then `write_all` and `finish`. The contract
/// claims that whether the encoder succeeds, and the stream it returns,
/// depend on `data` alone, and that the decoder reads `data` back out of
/// a stream that was returned. It promises no success.
#[verifier::external_body]
pub(crate) fn deflate(data: &[u8]) -> (stream: Option<Vec<u8>>)
    ensures
        stream matches Some(s) ==> zlib_deflated(data@) == Some(s@) && zlib_inflated(s@) == Some(
            data@,
        ),
        stream is None ==> zlib_deflated(data@) is None,
{
    let mut encoder = flate2::write::ZlibEncoder::new(Vec::new(), flate2::Compression::default());
    match encoder.write_all(data) {
        Ok(_) => encoder.finish().ok(),
        Err(_) => None,
    }
}

/// Calls `ZlibDecoder::new` of `flate2` on the stream and reads it to its
/// end. The contract claims that whether the decoder accepts the stream,
/// and what it reads out of it, depend on `stream` alone.
#[verifier::external_body]
pub(crate) fn inflate(stream: &[u8]) -> (data: Option<Vec<u8>>)
    ensures
        data matches Some(d) ==> zlib_inflated(stream@) == Some(d@),
        data is None ==> zlib_inflated(stream@) is None,
{
    let mut data = Vec::new();
    match flate2::bufread::ZlibDecoder::new(stream).read_to_end(&mut data) {
        Ok(_) => Some(data),
        Err(_) => None,
    }
}

} // verus!
