//! Whole-body gzip compression, done by the flate2 crate.
use vstd::prelude::*;
use std::io::Read;
use std::io::Write;

verus! {

/// The gzip stream that flate2 produces for `s` at the default level.
pub uninterp spec fn gzip_of(s: Seq<u8>) -> Seq<u8>;

/// What flate2 decodes from the gzip stream at the start of `s`, if it decodes.
pub uninterp spec fn gunzip_of(s: Seq<u8>) -> Option<Seq<u8>>;

/// Relies on flate2::write::GzEncoder (default level, no mtime, fixed OS byte):
/// its output depends on the input bytes alone. Writing into a `Vec` may still
/// report an error, which gives `None`.
#[verifier::external_body]
pub(crate) fn compress(data: &[u8]) -> (r: Option<Vec<u8>>)
    ensures
        r is Some ==> r->0@ == gzip_of(data@),
{
    let mut encoder = flate2::write::GzEncoder::new(Vec::new(), flate2::Compression::default());
    match encoder.write_all(data) {
        Ok(()) => encoder.finish().ok(),
        Err(_) => None,
    }
}

/// Relies on flate2::bufread::GzDecoder read to its end: the result depends on
/// the input bytes alone, and a stream that the encoder produced decodes to
/// exactly the bytes it was made from.
#[verifier::external_body]
pub(crate) fn decompress(data: &[u8]) -> (r: Option<Vec<u8>>)
    ensures
        r is Some <==> gunzip_of(data@) is Some,
        r is Some ==> r->0@ == gunzip_of(data@)->0,
        forall|x: Seq<u8>| #[trigger] gzip_of(x) == data@ ==> r is Some && r->0@ == x,
{
    let mut out = Vec::new();
    match flate2::bufread::GzDecoder::new(data).read_to_end(&mut out) {
        Ok(_) => Some(out),
        Err(_) => None,
    }
}

} // verus!
