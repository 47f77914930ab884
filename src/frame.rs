//! One raster image: a row-major byte buffer read through a header.
use vstd::prelude::*;
use crate::error::NifError;
use crate::header::Header;
use crate::pixel::{pixel_bytes, pixel_size, same_format, Pixel};

verus! {

/// Bytes in one frame of header `h`.
pub open spec fn frame_size(h: Header) -> int {
    h.width * h.height * pixel_size(h.pixel_format)
}

/// Where pixel `(x, y)` starts in a frame of header `h`.
pub open spec fn pixel_offset(h: Header, x: int, y: int) -> int {
    (y * h.width + x) * pixel_size(h.pixel_format)
}

pub open spec fn in_bounds(h: Header, x: u32, y: u32) -> bool {
    x < h.width && y < h.height
}

/// `data` with the bytes from `at` on replaced by `b`.
pub open spec fn overwrite(data: Seq<u8>, at: int, b: Seq<u8>) -> Seq<u8> {
    data.subrange(0, at) + b + data.subrange(at + b.len(), data.len() as int)
}

/// A pixel in bounds lies wholly inside its frame.
pub proof fn lemma_pixel_in_frame(h: Header, x: u32, y: u32)
    requires
        in_bounds(h, x, y),
    ensures
        0 <= pixel_offset(h, x as int, y as int),
        pixel_offset(h, x as int, y as int) + pixel_size(h.pixel_format) <= frame_size(h),
        y * h.width + x < h.width * h.height,
{
    let (w, hh, x, y, n) = (h.width as int, h.height as int, x as int, y as int, pixel_size(
        h.pixel_format,
    ) as int);
    assert(y * w + x < w * hh) by (nonlinear_arith)
        requires
            0 <= x < w,
            0 <= y < hh,
    ;
    assert(0 <= (y * w + x) * n && (y * w + x) * n + n <= w * hh * n) by (nonlinear_arith)
        requires
            0 <= y * w + x < w * hh,
            0 <= x,
            0 <= y,
            0 <= w,
            n >= 0,
    ;
}

/// The raw bytes of one frame.
#[derive(Clone, PartialEq, Eq, PartialOrd, Ord, Debug)]
pub struct Frame {
    pub data: Vec<u8>,
}

impl Frame {
    pub fn from(data: Vec<u8>) -> (f: Self)
        ensures
            f.data@ == data@,
    {
        Self { data }
    }

    /// A zero-filled ("black") frame sized for `header`.
    pub fn new(header: Header) -> (f: Self)
        requires
            frame_size(header) <= usize::MAX,
        ensures
            f.data@ == Seq::new(frame_size(header) as nat, |_i: int| 0u8),
    {
        let n = Self::size_for(header);
        let mut data: Vec<u8> = Vec::new();
        let mut i: usize = 0;
        while i < n
            invariant
                n == frame_size(header),
                i <= n,
                data@ == Seq::new(i as nat, |_i: int| 0u8),
            decreases n - i,
        {
            data.push(0);
            i = i + 1;
            assert(data@ =~= Seq::new(i as nat, |_i: int| 0u8));
        }
        Self { data }
    }

    /// The frame length for `header`, where it fits in memory.
    pub fn size_for(header: Header) -> (n: usize)
        requires
            frame_size(header) <= usize::MAX,
        ensures
            n == frame_size(header),
    {
        let w = header.width as usize;
        let h = header.height as usize;
        let s = header.pixel_format.get_size();
        assert(0 <= w * h <= w * h * s) by (nonlinear_arith)
            requires
                s >= 1,
                w >= 0,
                h >= 0,
        ;
        w * h * s
    }

    /// The frame length for `header`, or `None` where it exceeds `usize`.
    pub fn checked_size_for(header: Header) -> (n: Option<usize>)
        ensures
            n is Some <==> frame_size(header) <= usize::MAX,
            n is Some ==> n->0 == frame_size(header),
    {
        let w = header.width as usize;
        let h = header.height as usize;
        let s = header.pixel_format.get_size();
        match w.checked_mul(h) {
            None => {
                assert(w * h <= w * h * s) by (nonlinear_arith)
                    requires
                        s >= 1,
                        w >= 0,
                        h >= 0,
                ;
                None
            },
            Some(wh) => wh.checked_mul(s),
        }
    }

    /// Wraps `data` as a frame of `header`, if its length is right.
    pub fn from_bytes(header: Header, data: Vec<u8>) -> (r: Result<Frame, NifError>)
        ensures
            r is Ok <==> data@.len() == frame_size(header),
            r is Ok ==> r->Ok_0.data@ == data@,
            r is Err ==> r->Err_0 == NifError::SizeMismatch,
    {
        if Self::has_size(data.len(), header) {
            Ok(Self { data })
        } else {
            Err(NifError::SizeMismatch)
        }
    }

    /// Whether `len` bytes make one frame of `header`.
    pub fn has_size(len: usize, header: Header) -> (r: bool)
        ensures
            r == (len == frame_size(header)),
    {
        match Self::checked_size_for(header) {
            Some(n) => len == n,
            None => false,
        }
    }

    /// The byte offset of pixel `(x, y)`, for a frame of the right size.
    fn offset_of(&self, x: u32, y: u32, header: Header) -> (off: usize)
        requires
            in_bounds(header, x, y),
            self.data@.len() == frame_size(header),
        ensures
            off == pixel_offset(header, x as int, y as int),
            off + pixel_size(header.pixel_format) <= self.data@.len(),
    {
        proof { lemma_pixel_in_frame(header, x, y); }
        let len = self.data.len();
        let s = header.pixel_format.get_size();
        let ghost i = y as int * header.width as int + x as int;
        assert(i <= i * s) by (nonlinear_arith)
            requires
                i >= 0,
                s >= 1,
        ;
        let idx = (y as usize) * (header.width as usize) + (x as usize);
        assert(idx * s + s <= len);
        idx * s
    }

    /// The pixel at `(x, y)`, decoded in the header's format.
    pub fn get_pixel(&self, x: u32, y: u32, header: Header) -> (r: Result<Pixel, NifError>)
        ensures
            !in_bounds(header, x, y) ==> r == Err::<Pixel, NifError>(NifError::OutOfRange),
            in_bounds(header, x, y) && self.data@.len() != frame_size(header) ==> r == Err::<
                Pixel,
                NifError,
            >(NifError::SizeMismatch),
            in_bounds(header, x, y) && self.data@.len() == frame_size(header) ==> r is Ok && same_format(
                r->Ok_0,
                header.pixel_format,
            ) && pixel_bytes(r->Ok_0) == self.data@.subrange(
                pixel_offset(header, x as int, y as int),
                pixel_offset(header, x as int, y as int) + pixel_size(header.pixel_format),
            ),
    {
        if x >= header.width || y >= header.height {
            return Err(NifError::OutOfRange);
        }
        if !Self::has_size(self.data.len(), header) {
            return Err(NifError::SizeMismatch);
        }
        let off = self.offset_of(x, y, header);
        Ok(Pixel::decode(header.pixel_format, self.data.as_slice(), off))
    }

    /// Stores `pixel` at `(x, y)`; on an error the frame is left as it was.
    pub fn set_pixel(&mut self, x: u32, y: u32, pixel: Pixel, header: Header) -> (r: Result<
        (),
        NifError,
    >)
        requires
            same_format(pixel, header.pixel_format),
        ensures
            !in_bounds(header, x, y) ==> r == Err::<(), NifError>(NifError::OutOfRange),
            in_bounds(header, x, y) && old(self).data@.len() != frame_size(header) ==> r == Err::<
                (),
                NifError,
            >(NifError::SizeMismatch),
            in_bounds(header, x, y) && old(self).data@.len() == frame_size(header) ==> r is Ok,
            r is Err ==> final(self).data@ == old(self).data@,
            r is Ok ==> in_bounds(header, x, y) && old(self).data@.len() == frame_size(header),
            r is Ok ==> final(self).data@ == overwrite(
                old(self).data@,
                pixel_offset(header, x as int, y as int),
                pixel_bytes(pixel),
            ),
    {
        if x >= header.width || y >= header.height {
            return Err(NifError::OutOfRange);
        }
        if !Self::has_size(self.data.len(), header) {
            return Err(NifError::SizeMismatch);
        }
        let off = self.offset_of(x, y, header);
        let mut bytes: Vec<u8> = Vec::new();
        pixel.encode_into(&mut bytes);
        assert(bytes@ =~= pixel_bytes(pixel));
        let ghost before = self.data@;
        let mut k: usize = 0;
        while k < bytes.len()
            invariant
                bytes@ == pixel_bytes(pixel),
                bytes@.len() == pixel_size(header.pixel_format),
                off + bytes@.len() <= before.len() <= usize::MAX,
                k <= bytes@.len(),
                self.data@.len() == before.len(),
                forall|i: int|
                    0 <= i < self.data@.len() ==> #[trigger] self.data@[i] == if off <= i < off + k {
                        bytes@[i - off]
                    } else {
                        before[i]
                    },
            decreases bytes@.len() - k,
        {
            self.data.set(off + k, bytes[k]);
            k = k + 1;
        }
        assert(self.data@ =~= overwrite(before, off as int, pixel_bytes(pixel)));
        Ok(())
    }
}

impl Frame {
    /// Every pixel in row-major order, decoded in the header's format. Each call
    /// makes a fresh pass and leaves the frame as it is.
    pub fn pixels(&self, header: Header) -> (r: Result<Vec<Pixel>, NifError>)
        ensures
            r is Ok <==> self.data@.len() == frame_size(header),
            r is Err ==> r->Err_0 == NifError::SizeMismatch,
            r is Ok ==> r->Ok_0@.len() == header.width * header.height,
            r is Ok ==> forall|i: int|
                0 <= i < r->Ok_0@.len() ==> same_format(#[trigger] r->Ok_0@[i], header.pixel_format)
                    && pixel_bytes(r->Ok_0@[i]) == self.data@.subrange(
                    i * pixel_size(header.pixel_format),
                    i * pixel_size(header.pixel_format) + pixel_size(header.pixel_format),
                ),
    {
        if !Self::has_size(self.data.len(), header) {
            return Err(NifError::SizeMismatch);
        }
        let s = header.pixel_format.get_size();
        let ghost w = header.width as int;
        let ghost h = header.height as int;
        assert(w * h <= w * h * s && 0 <= w * h) by (nonlinear_arith)
            requires
                s >= 1,
                w >= 0,
                h >= 0,
        ;
        let count = (header.width as usize) * (header.height as usize);
        let mut out: Vec<Pixel> = Vec::new();
        let mut i: usize = 0;
        while i < count
            invariant
                count == w * h,
                s == pixel_size(header.pixel_format),
                self.data@.len() == count * s <= usize::MAX,
                i <= count,
                out@.len() == i,
                forall|j: int|
                    0 <= j < i ==> same_format(#[trigger] out@[j], header.pixel_format)
                        && pixel_bytes(out@[j]) == self.data@.subrange(j * s, j * s + s),
            decreases count - i,
        {
            assert(i * s + s <= count * s) by (nonlinear_arith)
                requires
                    i < count,
                    s >= 1,
            ;
            let p = Pixel::decode(header.pixel_format, self.data.as_slice(), i * s);
            out.push(p);
            i = i + 1;
        }
        Ok(out)
    }
}

/// Reading a pixel just written in bounds gives back the pixel written.
pub proof fn lemma_get_after_set(
    before: Seq<u8>,
    header: Header,
    x: u32,
    y: u32,
    written: Pixel,
    read: Pixel,
)
    requires
        in_bounds(header, x, y),
        before.len() == frame_size(header),
        same_format(written, header.pixel_format),
        same_format(read, header.pixel_format),
        pixel_bytes(read) == overwrite(
            before,
            pixel_offset(header, x as int, y as int),
            pixel_bytes(written),
        ).subrange(
            pixel_offset(header, x as int, y as int),
            pixel_offset(header, x as int, y as int) + pixel_size(header.pixel_format),
        ),
    ensures
        read == written,
{
    lemma_pixel_in_frame(header, x, y);
    let off = pixel_offset(header, x as int, y as int);
    let n = pixel_size(header.pixel_format) as int;
    assert(pixel_bytes(written).len() == n);
    assert(overwrite(before, off, pixel_bytes(written)).subrange(off, off + n) =~= pixel_bytes(
        written,
    ));
    crate::pixel::lemma_pixel_bytes_injective(read, written);
}

} // verus!
