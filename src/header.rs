//! The fixed-size header record and its 20-byte wire form.
use vstd::prelude::*;
use crate::bytes::{be32, be32_value, lemma_be32_decode_encode, push_be32, read_be32};
use crate::error::NifError;
use crate::pixel::{blank_pixel, format_code, pixel_size, Pixel};

verus! {

/// Magic number at the start of every NIF file ("NIF\0").
pub const MAGIC_NUMBER: u32 = 0x4E49_4600;

/// Newest format version this codec reads and writes.
pub const CURRENT_VERSION: u32 = 0x0001_0000;

/// Length of the encoded header record.
pub const HEADER_SIZE: usize = 0x14;

/// Feature flag bit: the body is one gzip stream.
pub const FEATURE_FLAGS_COMPRESSION: u32 = 0x1;

/// Image dimensions, pixel format, frame count and frame rate.
/// The frame rate is kept as the bit pattern of an IEEE-754 single.
#[derive(Clone, Copy, PartialEq, Eq, Debug, Structural)]
pub struct Header {
    pub width: u32,
    pub height: u32,
    pub pixel_format: Pixel,
    pub frame_count: u32,
    pub frame_rate_bits: u32,
}

/// The 20 bytes that encode `h`.
pub open spec fn header_bytes(h: Header) -> Seq<u8> {
    be32(h.width) + be32(h.height) + be32(format_code(h.pixel_format)) + be32(h.frame_count) + be32(
        h.frame_rate_bits,
    )
}

/// The header that the 20 bytes `s` encode, or the error they give.
pub open spec fn decode_header_bytes(s: Seq<u8>) -> Result<Header, NifError> {
    let code = be32_value(s.subrange(8, 12));
    if code >= 4 {
        Err(NifError::UnsupportedPixelFormat)
    } else {
        Ok(
            Header {
                width: be32_value(s.subrange(0, 4)),
                height: be32_value(s.subrange(4, 8)),
                pixel_format: blank_pixel(code),
                frame_count: be32_value(s.subrange(12, 16)),
                frame_rate_bits: be32_value(s.subrange(16, 20)),
            },
        )
    }
}

/// A header whose pixel format carries the all-zero pixel, as decoding yields.
pub open spec fn canonical_header(h: Header) -> bool {
    h.pixel_format == blank_pixel(format_code(h.pixel_format))
}

/// The header with the same fields whose pixel format carries the all-zero pixel.
pub open spec fn canonical_form(h: Header) -> Header {
    Header { pixel_format: blank_pixel(format_code(h.pixel_format)), ..h }
}

/// Decoding the encoding of a header gives it back, with its pixel format
/// reduced to the variant; a canonical header comes back unchanged.
pub proof fn lemma_header_round_trip(h: Header)
    ensures
        header_bytes(h).len() == HEADER_SIZE,
        decode_header_bytes(header_bytes(h)) == Ok::<Header, NifError>(canonical_form(h)),
        canonical_header(h) ==> canonical_form(h) == h,
        pixel_size(canonical_form(h).pixel_format) == pixel_size(h.pixel_format),
{
    let s = header_bytes(h);
    lemma_be32_decode_encode(h.width);
    lemma_be32_decode_encode(h.height);
    lemma_be32_decode_encode(format_code(h.pixel_format));
    lemma_be32_decode_encode(h.frame_count);
    lemma_be32_decode_encode(h.frame_rate_bits);
    assert(s.subrange(0, 4) =~= be32(h.width));
    assert(s.subrange(4, 8) =~= be32(h.height));
    assert(s.subrange(8, 12) =~= be32(format_code(h.pixel_format)));
    assert(s.subrange(12, 16) =~= be32(h.frame_count));
    assert(s.subrange(16, 20) =~= be32(h.frame_rate_bits));
}

impl Header {
    /// Appends the 20-byte encoding of this header.
    pub fn encode_into(&self, out: &mut Vec<u8>)
        ensures
            final(out)@ == old(out)@ + header_bytes(*self),
    {
        push_be32(out, self.width);
        push_be32(out, self.height);
        push_be32(out, self.pixel_format.format_code());
        push_be32(out, self.frame_count);
        push_be32(out, self.frame_rate_bits);
        assert(out@ =~= old(out)@ + header_bytes(*self));
    }

    /// The 20-byte encoding of this header.
    pub fn encode(&self) -> (r: Vec<u8>)
        ensures
            r@ == header_bytes(*self),
    {
        let mut out: Vec<u8> = Vec::new();
        self.encode_into(&mut out);
        assert(out@ =~= header_bytes(*self));
        out
    }

    /// Parses the header stored at `bytes[at..at + 20]`.
    pub fn decode(bytes: &[u8], at: usize) -> (r: Result<Header, NifError>)
        requires
            at + HEADER_SIZE <= bytes@.len(),
        ensures
            r == decode_header_bytes(bytes@.subrange(at as int, at + HEADER_SIZE)),
    {
        let ghost s = bytes@.subrange(at as int, at + HEADER_SIZE);
        let len = bytes.len();
        assert(at + 20 <= len);
        let width = read_be32(bytes, at);
        let height = read_be32(bytes, at + 4);
        let code = read_be32(bytes, at + 8);
        let frame_count = read_be32(bytes, at + 12);
        let frame_rate_bits = read_be32(bytes, at + 16);
        assert(bytes@.subrange(at as int, at + 4) =~= s.subrange(0, 4));
        assert(bytes@.subrange(at + 4, at + 8) =~= s.subrange(4, 8));
        assert(bytes@.subrange(at + 8, at + 12) =~= s.subrange(8, 12));
        assert(bytes@.subrange(at + 12, at + 16) =~= s.subrange(12, 16));
        assert(bytes@.subrange(at + 16, at + 20) =~= s.subrange(16, 20));
        match Pixel::from_format_code(code) {
            Ok(pixel_format) => Ok(Header { width, height, pixel_format, frame_count, frame_rate_bits }),
            Err(e) => Err(e),
        }
    }
}

} // verus!
