//! Pixel values and their on-disk encodings.
use vstd::prelude::*;
use crate::bytes::{
    be16, be16_value, be32, be32_value, lemma_be16_decode_encode, lemma_be16_encode_decode,
    lemma_be32_decode_encode, lemma_be32_encode_decode, push_be16, push_be32, read_be16,
    read_be32,
};
use crate::error::NifError;

verus! {

/// A pixel with 8 bits per channel, packed as `r << 24 | g << 16 | b << 8 | a`.
#[derive(Default, Clone, Copy, PartialEq, Eq, Debug, Structural)]
pub struct Pixel32U {
    pub rgba: u32,
}

impl Pixel32U {
    pub open spec fn red(self) -> u8 {
        (self.rgba >> 24u32) as u8
    }

    pub open spec fn green(self) -> u8 {
        (self.rgba >> 16u32) as u8
    }

    pub open spec fn blue(self) -> u8 {
        (self.rgba >> 8u32) as u8
    }

    pub open spec fn alpha(self) -> u8 {
        self.rgba as u8
    }

    pub fn from_u32(rgba: u32) -> (p: Pixel32U)
        ensures
            p.rgba == rgba,
    {
        Pixel32U { rgba }
    }

    pub fn from_rgba(r: u8, g: u8, b: u8, a: u8) -> (p: Self)
        ensures
            p.red() == r,
            p.green() == g,
            p.blue() == b,
            p.alpha() == a,
    {
        let v: u32 = (r as u32) << 24u32 | (g as u32) << 16u32 | (b as u32) << 8u32 | (a as u32);
        assert((v >> 24u32) as u8 == r && (v >> 16u32) as u8 == g && (v >> 8u32) as u8 == b
            && v as u8 == a) by (bit_vector)
            requires
                v == (r as u32) << 24u32 | (g as u32) << 16u32 | (b as u32) << 8u32 | (a as u32),
        ;
        Pixel32U { rgba: v }
    }

    pub fn r(&self) -> (r: u8)
        ensures
            r == self.red(),
    {
        (self.rgba >> 24u32) as u8
    }

    pub fn g(&self) -> (g: u8)
        ensures
            g == self.green(),
    {
        (self.rgba >> 16u32) as u8
    }

    pub fn b(&self) -> (b: u8)
        ensures
            b == self.blue(),
    {
        (self.rgba >> 8u32) as u8
    }

    pub fn a(&self) -> (a: u8)
        ensures
            a == self.alpha(),
    {
        self.rgba as u8
    }

    pub fn set_r(&mut self, r: u8)
        ensures
            final(self).red() == r,
            final(self).green() == old(self).green(),
            final(self).blue() == old(self).blue(),
            final(self).alpha() == old(self).alpha(),
    {
        let o = self.rgba;
        let v = (o & 0x00FF_FFFFu32) | ((r as u32) << 24u32);
        assert((v >> 24u32) as u8 == r && (v >> 16u32) as u8 == (o >> 16u32) as u8 && (v >> 8u32) as u8
            == (o >> 8u32) as u8 && v as u8 == o as u8) by (bit_vector)
            requires
                v == (o & 0x00FF_FFFFu32) | ((r as u32) << 24u32),
        ;
        self.rgba = v;
    }

    pub fn set_g(&mut self, g: u8)
        ensures
            final(self).red() == old(self).red(),
            final(self).green() == g,
            final(self).blue() == old(self).blue(),
            final(self).alpha() == old(self).alpha(),
    {
        let o = self.rgba;
        let v = (o & 0xFF00_FFFFu32) | ((g as u32) << 16u32);
        assert((v >> 24u32) as u8 == (o >> 24u32) as u8 && (v >> 16u32) as u8 == g && (v >> 8u32) as u8
            == (o >> 8u32) as u8 && v as u8 == o as u8) by (bit_vector)
            requires
                v == (o & 0xFF00_FFFFu32) | ((g as u32) << 16u32),
        ;
        self.rgba = v;
    }

    pub fn set_b(&mut self, b: u8)
        ensures
            final(self).red() == old(self).red(),
            final(self).green() == old(self).green(),
            final(self).blue() == b,
            final(self).alpha() == old(self).alpha(),
    {
        let o = self.rgba;
        let v = (o & 0xFFFF_00FFu32) | ((b as u32) << 8u32);
        assert((v >> 24u32) as u8 == (o >> 24u32) as u8 && (v >> 16u32) as u8 == (o >> 16u32) as u8
            && (v >> 8u32) as u8 == b && v as u8 == o as u8) by (bit_vector)
            requires
                v == (o & 0xFFFF_00FFu32) | ((b as u32) << 8u32),
        ;
        self.rgba = v;
    }

    pub fn set_a(&mut self, a: u8)
        ensures
            final(self).red() == old(self).red(),
            final(self).green() == old(self).green(),
            final(self).blue() == old(self).blue(),
            final(self).alpha() == a,
    {
        let o = self.rgba;
        let v = (o & 0xFFFF_FF00u32) | (a as u32);
        assert((v >> 24u32) as u8 == (o >> 24u32) as u8 && (v >> 16u32) as u8 == (o >> 16u32) as u8
            && (v >> 8u32) as u8 == (o >> 8u32) as u8 && v as u8 == a) by (bit_vector)
            requires
                v == (o & 0xFFFF_FF00u32) | (a as u32),
        ;
        self.rgba = v;
    }

    pub fn get(&self) -> (v: u32)
        ensures
            v == self.rgba,
    {
        self.rgba
    }
}

/// Two 32-bit pixels with the same four channels are the same pixel.
pub proof fn lemma_pixel32_channels_determine(p: Pixel32U, q: Pixel32U)
    requires
        p.red() == q.red(),
        p.green() == q.green(),
        p.blue() == q.blue(),
        p.alpha() == q.alpha(),
    ensures
        p == q,
{
    let (x, y) = (p.rgba, q.rgba);
    assert(x == y) by (bit_vector)
        requires
            (x >> 24u32) as u8 == (y >> 24u32) as u8,
            (x >> 16u32) as u8 == (y >> 16u32) as u8,
            (x >> 8u32) as u8 == (y >> 8u32) as u8,
            x as u8 == y as u8,
    ;
}

/// A pixel with 4 bits per channel, packed as `r << 12 | g << 8 | b << 4 | a`.
/// Formats without alpha keep the alpha nibble at zero.
#[derive(Default, Clone, Copy, PartialEq, Eq, Debug, Structural)]
pub struct Pixel16U {
    pub rgb: u16,
}

impl Pixel16U {
    pub open spec fn red(self) -> u8 {
        ((self.rgb >> 12u16) & 0xFu16) as u8
    }

    pub open spec fn green(self) -> u8 {
        ((self.rgb >> 8u16) & 0xFu16) as u8
    }

    pub open spec fn blue(self) -> u8 {
        ((self.rgb >> 4u16) & 0xFu16) as u8
    }

    pub open spec fn alpha(self) -> u8 {
        (self.rgb & 0xFu16) as u8
    }

    pub fn from_u16(rgb: u16) -> (p: Pixel16U)
        ensures
            p.rgb == rgb,
    {
        Pixel16U { rgb }
    }

    /// A pixel with zero alpha: each channel keeps the low four bits of its argument.
    pub fn new(r: u8, g: u8, b: u8) -> (p: Pixel16U)
        ensures
            p.red() == r & 0xF,
            p.green() == g & 0xF,
            p.blue() == b & 0xF,
            p.alpha() == 0,
    {
        assert(0u8 & 0xFu8 == 0) by (bit_vector);
        Self::from_rgba(r, g, b, 0)
    }

    /// Each channel keeps the low four bits of its argument.
    pub fn from_rgba(r: u8, g: u8, b: u8, a: u8) -> (p: Pixel16U)
        ensures
            p.red() == r & 0xF,
            p.green() == g & 0xF,
            p.blue() == b & 0xF,
            p.alpha() == a & 0xF,
    {
        let v: u16 = ((r & 0xFu8) as u16) << 12u16 | ((g & 0xFu8) as u16) << 8u16 | ((b & 0xFu8) as u16)
            << 4u16 | ((a & 0xFu8) as u16);
        assert(((v >> 12u16) & 0xFu16) as u8 == r & 0xF && ((v >> 8u16) & 0xFu16) as u8 == g & 0xF && ((v
            >> 4u16) & 0xFu16) as u8 == b & 0xF && (v & 0xFu16) as u8 == a & 0xF) by (bit_vector)
            requires
                v == ((r & 0xFu8) as u16) << 12u16 | ((g & 0xFu8) as u16) << 8u16 | ((b & 0xFu8) as u16)
                    << 4u16 | ((a & 0xFu8) as u16),
        ;
        Pixel16U { rgb: v }
    }

    pub fn r(&self) -> (r: u8)
        ensures
            r == self.red(),
    {
        ((self.rgb >> 12u16) & 0xFu16) as u8
    }

    pub fn g(&self) -> (g: u8)
        ensures
            g == self.green(),
    {
        ((self.rgb >> 8u16) & 0xFu16) as u8
    }

    pub fn b(&self) -> (b: u8)
        ensures
            b == self.blue(),
    {
        ((self.rgb >> 4u16) & 0xFu16) as u8
    }

    pub fn a(&self) -> (a: u8)
        ensures
            a == self.alpha(),
    {
        (self.rgb & 0xFu16) as u8
    }

    pub fn set_r(&mut self, r: u8)
        ensures
            final(self).red() == r & 0xF,
            final(self).green() == old(self).green(),
            final(self).blue() == old(self).blue(),
            final(self).alpha() == old(self).alpha(),
    {
        let o = self.rgb;
        let v = (o & 0x0FFFu16) | (((r & 0xFu8) as u16) << 12u16);
        assert(((v >> 12u16) & 0xFu16) as u8 == r & 0xF && ((v >> 8u16) & 0xFu16) == ((o >> 8u16)
            & 0xFu16) && ((v >> 4u16) & 0xFu16) == ((o >> 4u16) & 0xFu16) && (v & 0xFu16) == (o
            & 0xFu16)) by (bit_vector)
            requires
                v == (o & 0x0FFFu16) | (((r & 0xFu8) as u16) << 12u16),
        ;
        self.rgb = v;
    }

    pub fn set_g(&mut self, g: u8)
        ensures
            final(self).red() == old(self).red(),
            final(self).green() == g & 0xF,
            final(self).blue() == old(self).blue(),
            final(self).alpha() == old(self).alpha(),
    {
        let o = self.rgb;
        let v = (o & 0xF0FFu16) | (((g & 0xFu8) as u16) << 8u16);
        assert(((v >> 8u16) & 0xFu16) as u8 == g & 0xF && ((v >> 12u16) & 0xFu16) == ((o >> 12u16)
            & 0xFu16) && ((v >> 4u16) & 0xFu16) == ((o >> 4u16) & 0xFu16) && (v & 0xFu16) == (o
            & 0xFu16)) by (bit_vector)
            requires
                v == (o & 0xF0FFu16) | (((g & 0xFu8) as u16) << 8u16),
        ;
        self.rgb = v;
    }

    pub fn set_b(&mut self, b: u8)
        ensures
            final(self).red() == old(self).red(),
            final(self).green() == old(self).green(),
            final(self).blue() == b & 0xF,
            final(self).alpha() == old(self).alpha(),
    {
        let o = self.rgb;
        let v = (o & 0xFF0Fu16) | (((b & 0xFu8) as u16) << 4u16);
        assert(((v >> 4u16) & 0xFu16) as u8 == b & 0xF && ((v >> 12u16) & 0xFu16) == ((o >> 12u16)
            & 0xFu16) && ((v >> 8u16) & 0xFu16) == ((o >> 8u16) & 0xFu16) && (v & 0xFu16) == (o
            & 0xFu16)) by (bit_vector)
            requires
                v == (o & 0xFF0Fu16) | (((b & 0xFu8) as u16) << 4u16),
        ;
        self.rgb = v;
    }

    pub fn set_a(&mut self, a: u8)
        ensures
            final(self).red() == old(self).red(),
            final(self).green() == old(self).green(),
            final(self).blue() == old(self).blue(),
            final(self).alpha() == a & 0xF,
    {
        let o = self.rgb;
        let v = (o & 0xFFF0u16) | ((a & 0xFu8) as u16);
        assert((v & 0xFu16) as u8 == a & 0xF && ((v >> 12u16) & 0xFu16) == ((o >> 12u16) & 0xFu16)
            && ((v >> 8u16) & 0xFu16) == ((o >> 8u16) & 0xFu16) && ((v >> 4u16) & 0xFu16) == ((o
            >> 4u16) & 0xFu16)) by (bit_vector)
            requires
                v == (o & 0xFFF0u16) | ((a & 0xFu8) as u16),
        ;
        self.rgb = v;
    }

    pub fn get(&self) -> (v: u16)
        ensures
            v == self.rgb,
    {
        self.rgb
    }
}

/// Two 16-bit pixels with the same four channels are the same pixel.
pub proof fn lemma_pixel16_channels_determine(p: Pixel16U, q: Pixel16U)
    requires
        p.red() == q.red(),
        p.green() == q.green(),
        p.blue() == q.blue(),
        p.alpha() == q.alpha(),
    ensures
        p == q,
{
    let (x, y) = (p.rgb, q.rgb);
    assert(x == y) by (bit_vector)
        requires
            ((x >> 12u16) & 0xFu16) as u8 == ((y >> 12u16) & 0xFu16) as u8,
            ((x >> 8u16) & 0xFu16) as u8 == ((y >> 8u16) & 0xFu16) as u8,
            ((x >> 4u16) & 0xFu16) as u8 == ((y >> 4u16) & 0xFu16) as u8,
            (x & 0xFu16) as u8 == (y & 0xFu16) as u8,
    ;
}

impl From<u32> for Pixel32U {
    fn from(rgba: u32) -> (p: Pixel32U) {
        Pixel32U { rgba }
    }
}

impl vstd::std_specs::convert::FromSpecImpl<u32> for Pixel32U {
    open spec fn obeys_from_spec() -> bool {
        true
    }

    open spec fn from_spec(rgba: u32) -> Pixel32U {
        Pixel32U { rgba }
    }
}

impl From<u16> for Pixel16U {
    fn from(rgb: u16) -> (p: Pixel16U) {
        Pixel16U { rgb }
    }
}

impl vstd::std_specs::convert::FromSpecImpl<u16> for Pixel16U {
    open spec fn obeys_from_spec() -> bool {
        true
    }

    open spec fn from_spec(rgb: u16) -> Pixel16U {
        Pixel16U { rgb }
    }
}

/// A pixel value tagged with its format. In a header only the variant matters.
#[derive(Clone, Copy, PartialEq, Eq, Debug, Structural)]
pub enum Pixel {
    RGBA8888(Pixel32U),
    RGB888(Pixel32U),
    RGBA4444(Pixel16U),
    RGB444(Pixel16U),
}

/// Bytes per pixel of the format of `p`.
pub open spec fn pixel_size(p: Pixel) -> nat {
    match p {
        Pixel::RGBA8888(_) | Pixel::RGB888(_) => 4,
        Pixel::RGBA4444(_) | Pixel::RGB444(_) => 2,
    }
}

/// The wire code of the format of `p`.
pub open spec fn format_code(p: Pixel) -> u32 {
    match p {
        Pixel::RGBA8888(_) => 0,
        Pixel::RGB888(_) => 1,
        Pixel::RGBA4444(_) => 2,
        Pixel::RGB444(_) => 3,
    }
}

pub open spec fn same_format(p: Pixel, q: Pixel) -> bool {
    format_code(p) == format_code(q)
}

/// The all-zero pixel of the format with wire code `code`.
pub open spec fn blank_pixel(code: u32) -> Pixel {
    if code == 0 {
        Pixel::RGBA8888(Pixel32U { rgba: 0 })
    } else if code == 1 {
        Pixel::RGB888(Pixel32U { rgba: 0 })
    } else if code == 2 {
        Pixel::RGBA4444(Pixel16U { rgb: 0 })
    } else {
        Pixel::RGB444(Pixel16U { rgb: 0 })
    }
}

/// The on-disk bytes of `p`: its packed integer, big-endian.
pub open spec fn pixel_bytes(p: Pixel) -> Seq<u8> {
    match p {
        Pixel::RGBA8888(v) | Pixel::RGB888(v) => be32(v.rgba),
        Pixel::RGBA4444(v) | Pixel::RGB444(v) => be16(v.rgb),
    }
}

/// Pixels of one format with the same bytes are equal.
pub proof fn lemma_pixel_bytes_injective(p: Pixel, q: Pixel)
    requires
        same_format(p, q),
        pixel_bytes(p) == pixel_bytes(q),
    ensures
        p == q,
{
    match (p, q) {
        (Pixel::RGBA8888(v), Pixel::RGBA8888(w)) | (Pixel::RGB888(v), Pixel::RGB888(w)) => {
            lemma_be32_decode_encode(v.rgba);
            lemma_be32_decode_encode(w.rgba);
        },
        (Pixel::RGBA4444(v), Pixel::RGBA4444(w)) | (Pixel::RGB444(v), Pixel::RGB444(w)) => {
            lemma_be16_decode_encode(v.rgb);
            lemma_be16_decode_encode(w.rgb);
        },
        _ => {},
    }
}

impl Pixel {
    pub fn get_size(&self) -> (n: usize)
        ensures
            n == pixel_size(*self),
    {
        match self {
            Pixel::RGBA8888(_) => 4,
            Pixel::RGB888(_) => 4,
            Pixel::RGBA4444(_) => 2,
            Pixel::RGB444(_) => 2,
        }
    }

    pub fn format_code(&self) -> (c: u32)
        ensures
            c == format_code(*self),
    {
        match self {
            Pixel::RGBA8888(_) => 0,
            Pixel::RGB888(_) => 1,
            Pixel::RGBA4444(_) => 2,
            Pixel::RGB444(_) => 3,
        }
    }

    /// The all-zero pixel of the format with wire code `code`.
    pub fn from_format_code(code: u32) -> (r: Result<Pixel, NifError>)
        ensures
            code < 4 <==> r is Ok,
            r is Ok ==> r->Ok_0 == blank_pixel(code) && format_code(r->Ok_0) == code,
            r is Err ==> r->Err_0 == NifError::UnsupportedPixelFormat,
    {
        match code {
            0 => Ok(Pixel::RGBA8888(Pixel32U { rgba: 0 })),
            1 => Ok(Pixel::RGB888(Pixel32U { rgba: 0 })),
            2 => Ok(Pixel::RGBA4444(Pixel16U { rgb: 0 })),
            3 => Ok(Pixel::RGB444(Pixel16U { rgb: 0 })),
            _ => Err(NifError::UnsupportedPixelFormat),
        }
    }

    /// The all-zero pixel of this pixel's format.
    pub fn blank(&self) -> (r: Pixel)
        ensures
            r == blank_pixel(format_code(*self)),
            same_format(r, *self),
    {
        match self {
            Pixel::RGBA8888(_) => Pixel::RGBA8888(Pixel32U { rgba: 0 }),
            Pixel::RGB888(_) => Pixel::RGB888(Pixel32U { rgba: 0 }),
            Pixel::RGBA4444(_) => Pixel::RGBA4444(Pixel16U { rgb: 0 }),
            Pixel::RGB444(_) => Pixel::RGB444(Pixel16U { rgb: 0 }),
        }
    }

    /// Appends the on-disk bytes of this pixel.
    pub fn encode_into(&self, out: &mut Vec<u8>)
        ensures
            final(out)@ == old(out)@ + pixel_bytes(*self),
    {
        match self {
            Pixel::RGBA8888(v) => push_be32(out, v.rgba),
            Pixel::RGB888(v) => push_be32(out, v.rgba),
            Pixel::RGBA4444(v) => push_be16(out, v.rgb),
            Pixel::RGB444(v) => push_be16(out, v.rgb),
        }
    }

    /// The pixel of the format of `format` whose on-disk bytes are `bytes[at..]`.
    pub fn decode(format: Pixel, bytes: &[u8], at: usize) -> (r: Pixel)
        requires
            at + pixel_size(format) <= bytes@.len(),
        ensures
            same_format(r, format),
            pixel_bytes(r) == bytes@.subrange(at as int, at + pixel_size(format)),
    {
        match format {
            Pixel::RGBA8888(_) => {
                let v = read_be32(bytes, at);
                proof { lemma_be32_encode_decode(bytes@.subrange(at as int, at + 4)); }
                Pixel::RGBA8888(Pixel32U { rgba: v })
            },
            Pixel::RGB888(_) => {
                let v = read_be32(bytes, at);
                proof { lemma_be32_encode_decode(bytes@.subrange(at as int, at + 4)); }
                Pixel::RGB888(Pixel32U { rgba: v })
            },
            Pixel::RGBA4444(_) => {
                let v = read_be16(bytes, at);
                proof { lemma_be16_encode_decode(bytes@.subrange(at as int, at + 2)); }
                Pixel::RGBA4444(Pixel16U { rgb: v })
            },
            Pixel::RGB444(_) => {
                let v = read_be16(bytes, at);
                proof { lemma_be16_encode_decode(bytes@.subrange(at as int, at + 2)); }
                Pixel::RGB444(Pixel16U { rgb: v })
            },
        }
    }
}

} // verus!
