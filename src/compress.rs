use std::io::Write;
use vstd::prelude::*;

verus! {

/// The zlib stream that flate2's encoder writes for a byte sequence at the
/// default level.
pub uninterp spec fn zlib_of(b: Seq<u8>) -> Seq<u8>;

/// What flate2's zlib decoder makes of a byte sequence: the bytes it
/// decompresses to, or `None` where it is no valid stream.
pub uninterp spec fn inflate_of(z: Seq<u8>) -> Option<Seq<u8>>;

/// Relies on flate2::write::ZlibEncoder: the zlib stream of the input at the
/// default level, which the decoder reads back to the input. Writing into a
/// `Vec` cannot fail, so neither step returns an error.
#[verifier::external_body]
pub(crate) fn zip(b: &[u8]) -> (r: Vec<u8>)
    ensures
        r@ == zlib_of(b@),
        inflate_of(r@) == Some(b@),
{
    let mut e = flate2::write::ZlibEncoder::new(Vec::new(), flate2::Compression::default());
    match e.write_all(b) {
        Ok(()) => {},
        Err(_) => return Vec::new(),
    }
    match e.finish() {
        Ok(v) => v,
        Err(_) => Vec::new(),
    }
}

/// Relies on flate2::write::ZlibDecoder: the decompressed bytes of a zlib
/// stream, or nothing where the input is not one.
#[verifier::external_body]
pub(crate) fn unzip(z: &[u8]) -> (r: Option<Vec<u8>>)
    ensures
        match r {
            Some(v) => inflate_of(z@) == Some(v@),
            None => inflate_of(z@) is None,
        },
{
    let mut d = flate2::write::ZlibDecoder::new(Vec::new());
    if d.write_all(z).is_err() {
        return None;
    }
    d.finish().ok()
}

} // verus!
