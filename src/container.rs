//! The container: header, frames, and the file layout that holds them.
use vstd::prelude::*;
use crate::bytes::{append_bytes, be32, be32_value, lemma_be32_decode_encode, push_be32, read_be32};
use crate::error::NifError;
use crate::frame::{frame_size, Frame};
use crate::gzip::{compress, decompress, gunzip_of, gzip_of};
use crate::header::{
    canonical_form, canonical_header, decode_header_bytes, header_bytes, lemma_header_round_trip, Header,
    CURRENT_VERSION, FEATURE_FLAGS_COMPRESSION, HEADER_SIZE, MAGIC_NUMBER,
};
use crate::pixel::{blank_pixel, format_code, Pixel, Pixel32U};

verus! {

/// Offset of the body in a file: magic, version, flags, then the header.
pub const BODY_OFFSET: usize = 32;

/// The frames one after another.
pub open spec fn concat_frames(frames: Seq<Seq<u8>>) -> Seq<u8>
    decreases frames.len(),
{
    if frames.len() == 0 {
        Seq::empty()
    } else {
        concat_frames(frames.drop_last()) + frames.last()
    }
}

pub open spec fn is_compressed(features: u32) -> bool {
    features & FEATURE_FLAGS_COMPRESSION != 0
}

/// Magic, version, flags and header, as a file starts.
pub open spec fn file_prefix(version: u32, features: u32, h: Header) -> Seq<u8> {
    be32(MAGIC_NUMBER) + be32(version) + be32(features) + header_bytes(h)
}

/// The body as stored: the frames concatenated, gzip-compressed when the flags say so.
pub open spec fn stored_body(features: u32, frames: Seq<Seq<u8>>) -> Seq<u8> {
    if is_compressed(features) {
        gzip_of(concat_frames(frames))
    } else {
        concat_frames(frames)
    }
}

/// The whole file written for a container with these parts.
pub open spec fn file_bytes(version: u32, features: u32, h: Header, frames: Seq<Seq<u8>>) -> Seq<
    u8,
> {
    file_prefix(version, features, h) + stored_body(features, frames)
}

/// Version, flags and header read from the start of `s`, or the first failure.
pub open spec fn parse_prefix(s: Seq<u8>) -> Result<(u32, u32, Header), NifError> {
    if s.len() < 4 {
        Err(NifError::TruncatedData)
    } else if be32_value(s.subrange(0, 4)) != MAGIC_NUMBER {
        Err(NifError::InvalidMagic)
    } else if s.len() < 8 {
        Err(NifError::TruncatedData)
    } else if be32_value(s.subrange(4, 8)) > CURRENT_VERSION {
        Err(NifError::UnsupportedVersion)
    } else if s.len() < BODY_OFFSET {
        Err(NifError::TruncatedData)
    } else {
        match decode_header_bytes(s.subrange(12, 32)) {
            Err(e) => Err(e),
            Ok(h) => Ok((be32_value(s.subrange(4, 8)), be32_value(s.subrange(8, 12)), h)),
        }
    }
}

/// The `frame_count` frames at the start of the decoded `body`.
pub open spec fn split_frames(h: Header, body: Seq<u8>) -> Result<Seq<Seq<u8>>, NifError> {
    let n = h.frame_count as int;
    let l = frame_size(h);
    if body.len() < n * l {
        Err(NifError::TruncatedData)
    } else {
        Ok(Seq::new(n as nat, |i: int| body.subrange(i * l, i * l + l)))
    }
}

/// A container's parts from its prefix fields and its decoded body.
pub open spec fn assemble(version: u32, features: u32, h: Header, body: Seq<u8>) -> Result<
    (u32, u32, Header, Seq<Seq<u8>>),
    NifError,
> {
    match split_frames(h, body) {
        Err(e) => Err(e),
        Ok(frames) => Ok((version, features, h, frames)),
    }
}

/// Version, flags, header and frames read from the file `s`, or the first failure.
/// A compressed body that does not decode is reported as truncated.
pub open spec fn parse_file(s: Seq<u8>) -> Result<(u32, u32, Header, Seq<Seq<u8>>), NifError> {
    match parse_prefix(s) {
        Err(e) => Err(e),
        Ok((version, features, h)) => {
            let raw = s.subrange(BODY_OFFSET as int, s.len() as int);
            if is_compressed(features) {
                match gunzip_of(raw) {
                    None => Err(NifError::TruncatedData),
                    Some(body) => assemble(version, features, h, body),
                }
            } else {
                assemble(version, features, h, raw)
            }
        },
    }
}

/// Slot `j` of `n` slots of length `l` lies within the first `n * l` bytes.
proof fn lemma_slot_bounds(j: int, n: int, l: int)
    requires
        0 <= j < n,
        0 <= l,
    ensures
        0 <= j * l,
        j * l + l <= n * l,
{
    assert(0 <= j * l && j * l + l <= n * l) by (nonlinear_arith)
        requires
            0 <= j < n,
            0 <= l,
    ;
}

/// A NIF container: format version, feature flags, header and frames.
pub struct Nif {
    pub version: u32,
    pub features: u32,
    pub header: Header,
    pub frames: Vec<Frame>,
}

impl Nif {
    /// The bytes of each frame, in order.
    pub open spec fn frame_data(&self) -> Seq<Seq<u8>> {
        self.frames@.map_values(|f: Frame| f.data@)
    }

    /// The header counts the frames held, and each frame has the header's size.
    pub open spec fn wf(&self) -> bool {
        &&& self.header.frame_count == self.frame_data().len()
        &&& forall|i: int|
            0 <= i < self.frame_data().len() ==> (#[trigger] self.frame_data()[i]).len()
                == frame_size(self.header)
    }

    /// An empty container of 0x0 RGBA8888 frames.
    pub fn new_default() -> (n: Self)
        ensures
            n.wf(),
            canonical_header(n.header),
            n.version == CURRENT_VERSION,
            n.features == 0,
            n.header == (Header {
                width: 0,
                height: 0,
                pixel_format: Pixel::RGBA8888(Pixel32U { rgba: 0 }),
                frame_count: 0,
                frame_rate_bits: 0,
            }),
            n.frame_data().len() == 0,
    {
        let n = Nif {
            version: CURRENT_VERSION,
            features: 0,
            header: Header {
                width: 0,
                height: 0,
                pixel_format: Pixel::RGBA8888(Pixel32U { rgba: 0 }),
                frame_count: 0,
                frame_rate_bits: 0,
            },
            frames: Vec::new(),
        };
        assert(n.frame_data() =~= Seq::empty());
        n
    }

    /// An empty container for frames of `header`. The frame count starts at zero
    /// whatever `header` says, and only the variant of its pixel format is kept.
    pub fn new(header: Header) -> (n: Self)
        ensures
            n.wf(),
            canonical_header(n.header),
            n.version == CURRENT_VERSION,
            n.features == 0,
            n.header == (Header {
                frame_count: 0,
                pixel_format: blank_pixel(format_code(header.pixel_format)),
                ..header
            }),
            n.frame_data().len() == 0,
    {
        let n = Nif {
            version: CURRENT_VERSION,
            features: 0,
            header: Header { frame_count: 0, pixel_format: header.pixel_format.blank(), ..header },
            frames: Vec::new(),
        };
        assert(n.frame_data() =~= Seq::empty());
        n
    }

    /// The frame at `index`, for changing it in place.
    pub fn get_frame(&mut self, index: u32) -> (r: Option<&mut Frame>)
        ensures
            r is Some <==> index < old(self).header.frame_count && index < old(self).frames@.len(),
            r is None ==> *final(self) == *old(self),
            r is Some ==> *(r->0) == old(self).frames@[index as int],
            r is Some ==> final(self).frames@ == old(self).frames@.update(index as int, *final(r->0)),
            final(self).version == old(self).version,
            final(self).features == old(self).features,
            final(self).header == old(self).header,
    {
        if index < self.header.frame_count && (index as usize) < self.frames.len() {
            Some(&mut self.frames[index as usize])
        } else {
            None
        }
    }

    pub fn get_frames(&self) -> (r: &Vec<Frame>)
        ensures
            r@ == self.frames@,
    {
        &self.frames
    }

    /// All frames, for changing in place; the caller keeps the header in step.
    pub fn get_frames_mut(&mut self) -> (r: &mut Vec<Frame>)
        ensures
            *r == old(self).frames,
            final(self).frames == *final(r),
            final(self).version == old(self).version,
            final(self).features == old(self).features,
            final(self).header == old(self).header,
    {
        &mut self.frames
    }

    /// Appends a zero-filled frame and counts it in the header.
    pub fn new_empty_frame(&mut self)
        requires
            old(self).wf(),
            old(self).header.frame_count < u32::MAX,
            frame_size(old(self).header) <= usize::MAX,
        ensures
            final(self).wf(),
            final(self).header == (Header {
                frame_count: (old(self).header.frame_count + 1) as u32,
                ..old(self).header
            }),
            final(self).frame_data() == old(self).frame_data().push(
                Seq::new(frame_size(old(self).header) as nat, |_i: int| 0u8),
            ),
            canonical_header(old(self).header) ==> canonical_header(final(self).header),
            final(self).version == old(self).version,
            final(self).features == old(self).features,
    {
        let frame = Frame::new(self.header);
        self.header.frame_count = self.header.frame_count + 1;
        self.frames.push(frame);
        assert(self.frame_data() =~= old(self).frame_data().push(
            Seq::new(frame_size(old(self).header) as nat, |_i: int| 0u8),
        ));
    }

    /// The frames of this container concatenated in order.
    fn concat_data(&self) -> (r: Vec<u8>)
        ensures
            r@ == concat_frames(self.frame_data()),
    {
        let mut out: Vec<u8> = Vec::new();
        let mut i: usize = 0;
        while i < self.frames.len()
            invariant
                i <= self.frames@.len(),
                out@ == concat_frames(self.frame_data().subrange(0, i as int)),
            decreases self.frames@.len() - i,
        {
            append_bytes(&mut out, self.frames[i].data.as_slice());
            assert(self.frame_data().subrange(0, i + 1).drop_last() =~= self.frame_data().subrange(
                0,
                i as int,
            ));
            i = i + 1;
        }
        assert(self.frame_data().subrange(0, i as int) =~= self.frame_data());
        out
    }

    /// The file that stores this container with body encoding `features`. The
    /// version and header are this container's; `features` is stored in place of
    /// its own flags. Only compression can fail, with `IoError`.
    pub fn to_bytes(&self, features: u32) -> (r: Result<Vec<u8>, NifError>)
        ensures
            !is_compressed(features) ==> r is Ok,
            r is Ok ==> r->Ok_0@ == file_bytes(
                self.version,
                features,
                self.header,
                self.frame_data(),
            ),
            r is Err ==> r->Err_0 == NifError::IoError,
    {
        let mut out: Vec<u8> = Vec::new();
        push_be32(&mut out, MAGIC_NUMBER);
        push_be32(&mut out, self.version);
        push_be32(&mut out, features);
        self.header.encode_into(&mut out);
        assert(out@ =~= file_prefix(self.version, features, self.header));
        let body = self.concat_data();
        if features & FEATURE_FLAGS_COMPRESSION != 0 {
            match compress(body.as_slice()) {
                Some(packed) => append_bytes(&mut out, packed.as_slice()),
                None => {
                    return Err(NifError::IoError);
                },
            }
        } else {
            append_bytes(&mut out, body.as_slice());
        }
        Ok(out)
    }

    /// The container whose frames are the first `frame_count` frame-sized slices
    /// of the decoded `body`; extra bytes are ignored.
    pub fn from_body(version: u32, features: u32, header: Header, body: &[u8]) -> (r: Result<
        Nif,
        NifError,
    >)
        ensures
            r is Ok <==> split_frames(header, body@) is Ok,
            r is Ok ==> r->Ok_0.wf() && assemble(version, features, header, body@) == Ok::<
                (u32, u32, Header, Seq<Seq<u8>>),
                NifError,
            >((r->Ok_0.version, r->Ok_0.features, r->Ok_0.header, r->Ok_0.frame_data())),
            r is Err ==> r->Err_0 == NifError::TruncatedData,
    {
        let n = header.frame_count as usize;
        let mut frames: Vec<Frame> = Vec::new();
        if n == 0 {
            let nif = Nif { version, features, header, frames };
            assert(0 * frame_size(header) == 0);
            assert(nif.frame_data() =~= split_frames(header, body@)->Ok_0);
            return Ok(nif);
        }
        let blen = body.len();
        let l = match Frame::checked_size_for(header) {
            Some(l) => l,
            None => {
                assert(n * frame_size(header) >= frame_size(header)) by (nonlinear_arith)
                    requires
                        n >= 1,
                        frame_size(header) >= 0,
                ;
                return Err(NifError::TruncatedData);
            },
        };
        let total = match l.checked_mul(n) {
            Some(t) => t,
            None => {
                return Err(NifError::TruncatedData);
            },
        };
        if blen < total {
            return Err(NifError::TruncatedData);
        }
        let ghost want = split_frames(header, body@)->Ok_0;
        let mut i: usize = 0;
        let mut start: usize = 0;
        while i < n
            invariant
                n == header.frame_count,
                l == frame_size(header),
                total == l * n,
                total <= body@.len(),
                i <= n,
                start == i * l,
                want == Seq::new(n as nat, |j: int| body@.subrange(j * l, j * l + l)),
                frames@.len() == i,
                forall|j: int| 0 <= j < i ==> (#[trigger] frames@[j]).data@ == want[j],
            decreases n - i,
        {
            assert(start + l <= total) by (nonlinear_arith)
                requires
                    start == i * l,
                    i < n,
                    total == l * n,
                    l >= 0,
            ;
            let end = start + l;
            let chunk = vstd::slice::slice_subrange(body, start, end);
            frames.push(Frame { data: vstd::slice::slice_to_vec(chunk) });
            assert(end == (i + 1) * l) by (nonlinear_arith)
                requires
                    end == start + l,
                    start == i * l,
            ;
            start = end;
            i = i + 1;
        }
        let nif = Nif { version, features, header, frames };
        assert(nif.frame_data() =~= want);
        assert forall|j: int| 0 <= j < n implies (#[trigger] want[j]).len() == l by {
            lemma_slot_bounds(j, n as int, l as int);
        }
        Ok(nif)
    }

    /// Reads a container from the bytes of a file.
    pub fn from_bytes(bytes: &[u8]) -> (r: Result<Nif, NifError>)
        ensures
            r is Ok <==> parse_file(bytes@) is Ok,
            r is Ok ==> r->Ok_0.wf() && canonical_header(r->Ok_0.header) && parse_file(bytes@) == Ok::<
                (u32, u32, Header, Seq<Seq<u8>>),
                NifError,
            >((r->Ok_0.version, r->Ok_0.features, r->Ok_0.header, r->Ok_0.frame_data())),
            r is Err ==> parse_file(bytes@) == Err::<(u32, u32, Header, Seq<Seq<u8>>), NifError>(
                r->Err_0,
            ),
            // A body that is the compressed image of some bytes decodes to them.
            forall|x: Seq<u8>|
                parse_prefix(bytes@) is Ok && is_compressed(parse_prefix(bytes@)->Ok_0.1)
                    && #[trigger] gzip_of(x) == bytes@.subrange(BODY_OFFSET as int, bytes@.len() as int)
                    ==> parse_file(bytes@) == assemble(
                    parse_prefix(bytes@)->Ok_0.0,
                    parse_prefix(bytes@)->Ok_0.1,
                    parse_prefix(bytes@)->Ok_0.2,
                    x,
                ),
    {
        let len = bytes.len();
        if len < 4 {
            return Err(NifError::TruncatedData);
        }
        if read_be32(bytes, 0) != MAGIC_NUMBER {
            return Err(NifError::InvalidMagic);
        }
        if len < 8 {
            return Err(NifError::TruncatedData);
        }
        let version = read_be32(bytes, 4);
        if version > CURRENT_VERSION {
            return Err(NifError::UnsupportedVersion);
        }
        if len < BODY_OFFSET {
            return Err(NifError::TruncatedData);
        }
        let features = read_be32(bytes, 8);
        let header = match Header::decode(bytes, 12) {
            Ok(h) => h,
            Err(e) => {
                return Err(e);
            },
        };
        let raw = vstd::slice::slice_subrange(bytes, BODY_OFFSET, len);
        if features & FEATURE_FLAGS_COMPRESSION != 0 {
            match decompress(raw) {
                Some(body) => Self::from_body(version, features, header, body.as_slice()),
                None => Err(NifError::TruncatedData),
            }
        } else {
            Self::from_body(version, features, header, raw)
        }
    }
}

/// Frames that all have length `l` concatenate to `n * l` bytes, with frame `i`
/// at `[i * l, i * l + l)`.
pub proof fn lemma_concat_slots(frames: Seq<Seq<u8>>, l: int)
    requires
        0 <= l,
        forall|i: int| 0 <= i < frames.len() ==> (#[trigger] frames[i]).len() == l,
    ensures
        concat_frames(frames).len() == frames.len() * l,
        forall|i: int|
            0 <= i < frames.len() ==> concat_frames(frames).subrange(i * l, i * l + l)
                == #[trigger] frames[i],
    decreases frames.len(),
{
    let n = frames.len() as int;
    if n > 0 {
        let front = frames.drop_last();
        lemma_concat_slots(front, l);
        let c = concat_frames(frames);
        let cf = concat_frames(front);
        assert((n - 1) * l + l == n * l) by (nonlinear_arith);
        assert forall|i: int| 0 <= i < n implies c.subrange(i * l, i * l + l) == #[trigger] frames[i] by {
            lemma_slot_bounds(i, n, l);
            if i < n - 1 {
                lemma_slot_bounds(i, n - 1, l);
                assert(c.subrange(i * l, i * l + l) =~= cf.subrange(i * l, i * l + l));
                assert(front[i] == frames[i]);
            } else {
                assert(c.subrange(i * l, i * l + l) =~= frames.last());
            }
        }
    }
}

/// Splitting the concatenation of a header's frames gives the frames back.
pub proof fn lemma_split_concat(h: Header, frames: Seq<Seq<u8>>)
    requires
        frames.len() == h.frame_count,
        forall|i: int| 0 <= i < frames.len() ==> (#[trigger] frames[i]).len() == frame_size(h),
    ensures
        split_frames(h, concat_frames(frames)) == Ok::<Seq<Seq<u8>>, NifError>(frames),
{
    let l = frame_size(h);
    assert(0 <= l) by (nonlinear_arith)
        requires
            l == h.width * h.height * crate::pixel::pixel_size(h.pixel_format),
    ;
    lemma_concat_slots(frames, l);
    let c = concat_frames(frames);
    assert(Seq::new(frames.len(), |i: int| c.subrange(i * l, i * l + l)) =~= frames);
}

/// A file that starts with a valid prefix: the prefix fields read back, and the
/// body follows at its fixed offset.
pub proof fn lemma_prefix_round_trip(version: u32, features: u32, h: Header, body: Seq<u8>)
    requires
        version <= CURRENT_VERSION,
    ensures
        parse_prefix(file_prefix(version, features, h) + body) == Ok::<
            (u32, u32, Header),
            NifError,
        >((version, features, canonical_form(h))),
        canonical_header(h) ==> canonical_form(h) == h,
        frame_size(canonical_form(h)) == frame_size(h),
        (file_prefix(version, features, h) + body).subrange(
            BODY_OFFSET as int,
            (file_prefix(version, features, h) + body).len() as int,
        ) == body,
{
    let s = file_prefix(version, features, h) + body;
    lemma_be32_decode_encode(MAGIC_NUMBER);
    lemma_be32_decode_encode(version);
    lemma_be32_decode_encode(features);
    lemma_header_round_trip(h);
    assert(s.subrange(0, 4) =~= be32(MAGIC_NUMBER));
    assert(s.subrange(4, 8) =~= be32(version));
    assert(s.subrange(8, 12) =~= be32(features));
    assert(s.subrange(12, 32) =~= header_bytes(h));
    assert(s.subrange(BODY_OFFSET as int, s.len() as int) =~= body);
}

/// Reading back an uncompressed file of a well-formed container gives its
/// version, flags, header and every frame's bytes.
pub proof fn lemma_round_trip_uncompressed(nif: Nif, features: u32)
    requires
        nif.wf(),
        canonical_header(nif.header),
        nif.version <= CURRENT_VERSION,
        !is_compressed(features),
    ensures
        parse_file(file_bytes(nif.version, features, nif.header, nif.frame_data())) == Ok::<
            (u32, u32, Header, Seq<Seq<u8>>),
            NifError,
        >((nif.version, features, nif.header, nif.frame_data())),
{
    let body = concat_frames(nif.frame_data());
    lemma_prefix_round_trip(nif.version, features, nif.header, body);
    lemma_split_concat(nif.header, nif.frame_data());
}

/// A compressed file of a well-formed container reads back its version, flags
/// and header, holds the compressed concatenation of its frames as the body,
/// and that concatenation splits back into the frames. With the contract of
/// `Nif::from_bytes` on compressed bodies, reading the file gives the container.
pub proof fn lemma_round_trip_compressed(nif: Nif, features: u32)
    requires
        nif.wf(),
        canonical_header(nif.header),
        nif.version <= CURRENT_VERSION,
        is_compressed(features),
    ensures
        ({
            let s = file_bytes(nif.version, features, nif.header, nif.frame_data());
            &&& parse_prefix(s) == Ok::<(u32, u32, Header), NifError>(
                (nif.version, features, nif.header),
            )
            &&& s.subrange(BODY_OFFSET as int, s.len() as int) == gzip_of(
                concat_frames(nif.frame_data()),
            )
        }),
        assemble(nif.version, features, nif.header, concat_frames(nif.frame_data())) == Ok::<
            (u32, u32, Header, Seq<Seq<u8>>),
            NifError,
        >((nif.version, features, nif.header, nif.frame_data())),
{
    let body = gzip_of(concat_frames(nif.frame_data()));
    lemma_prefix_round_trip(nif.version, features, nif.header, body);
    lemma_split_concat(nif.header, nif.frame_data());
}

/// A wrong magic number, a newer version, or a pixel format code above 3 each
/// make reading fail with its own error.
pub proof fn lemma_header_validation(s: Seq<u8>)
    ensures
        s.len() >= 4 && be32_value(s.subrange(0, 4)) != MAGIC_NUMBER ==> parse_file(s) == Err::<
            (u32, u32, Header, Seq<Seq<u8>>),
            NifError,
        >(NifError::InvalidMagic),
        s.len() >= 8 && be32_value(s.subrange(0, 4)) == MAGIC_NUMBER && be32_value(
            s.subrange(4, 8),
        ) > CURRENT_VERSION ==> parse_file(s) == Err::<(u32, u32, Header, Seq<Seq<u8>>), NifError>(
            NifError::UnsupportedVersion,
        ),
        s.len() >= BODY_OFFSET && be32_value(s.subrange(0, 4)) == MAGIC_NUMBER && be32_value(
            s.subrange(4, 8),
        ) <= CURRENT_VERSION && be32_value(s.subrange(20, 24)) >= 4 ==> parse_file(s) == Err::<
            (u32, u32, Header, Seq<Seq<u8>>),
            NifError,
        >(NifError::UnsupportedPixelFormat),
{
    if s.len() >= BODY_OFFSET {
        assert(s.subrange(12, 32).subrange(8, 12) =~= s.subrange(20, 24));
    }
}

/// An uncompressed file of a well-formed container with at least one non-empty
/// frame, cut short by one byte, reads as truncated data rather than as a
/// shorter last frame.
pub proof fn lemma_truncated_body(nif: Nif, features: u32)
    requires
        nif.wf(),
        nif.version <= CURRENT_VERSION,
        !is_compressed(features),
        nif.header.frame_count >= 1,
        frame_size(nif.header) >= 1,
    ensures
        ({
            let s = file_bytes(nif.version, features, nif.header, nif.frame_data());
            parse_file(s.drop_last()) == Err::<(u32, u32, Header, Seq<Seq<u8>>), NifError>(
                NifError::TruncatedData,
            )
        }),
{
    let h = nif.header;
    let body = concat_frames(nif.frame_data());
    let s = file_bytes(nif.version, features, h, nif.frame_data());
    lemma_concat_slots(nif.frame_data(), frame_size(h));
    assert(body.len() >= 1) by (nonlinear_arith)
        requires
            body.len() == nif.frame_data().len() * frame_size(h),
            nif.frame_data().len() >= 1,
            frame_size(h) >= 1,
    ;
    let cut = body.drop_last();
    assert(s.drop_last() =~= file_prefix(nif.version, features, h) + cut);
    lemma_prefix_round_trip(nif.version, features, h, cut);
}

} // verus!
