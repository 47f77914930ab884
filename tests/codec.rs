use nif::{
    Frame, Header, Nif, NifError, Pixel, Pixel16U, Pixel32U, CURRENT_VERSION,
    FEATURE_FLAGS_COMPRESSION, HEADER_SIZE, MAGIC_NUMBER,
};

fn header(width: u32, height: u32, pixel_format: Pixel) -> Header {
    Header { width, height, pixel_format, frame_count: 0, frame_rate_bits: 0 }
}

#[test]
fn pixel32_packing_is_exact() {
    let p = Pixel32U::from_rgba(0x12, 0x34, 0x56, 0x78);
    assert_eq!(p.get(), 0x1234_5678);
    assert_eq!((p.r(), p.g(), p.b(), p.a()), (0x12, 0x34, 0x56, 0x78));
    let q: Pixel32U = 0xAABB_CCDDu32.into();
    assert_eq!((q.r(), q.g(), q.b(), q.a()), (0xAA, 0xBB, 0xCC, 0xDD));
    assert_eq!(Pixel32U::from_u32(7).get(), 7);
}

#[test]
fn pixel32_setters_touch_one_channel() {
    let mut p = Pixel32U::from_rgba(1, 2, 3, 4);
    p.set_r(9);
    assert_eq!(p.get(), 0x0902_0304);
    p.set_g(8);
    assert_eq!(p.get(), 0x0908_0304);
    p.set_b(7);
    assert_eq!(p.get(), 0x0908_0704);
    p.set_a(6);
    assert_eq!(p.get(), 0x0908_0706);
}

#[test]
fn pixel16_packing_and_setters() {
    let p = Pixel16U::from_rgba(0x1, 0x2, 0x3, 0x4);
    assert_eq!(p.get(), 0x1234);
    assert_eq!((p.r(), p.g(), p.b(), p.a()), (1, 2, 3, 4));
    let mut q = Pixel16U::new(0xF, 0x5, 0xA);
    assert_eq!(q.get(), 0xF5A0);
    // only the low nibble of each channel is kept
    q.set_r(0x1C);
    q.set_g(0x23);
    q.set_b(0x07);
    q.set_a(0xE9);
    assert_eq!(q.get(), 0xC379);
    assert_eq!(Pixel16U::from_u16(0xBEEF).get(), 0xBEEF);
    let r: Pixel16U = 0x0102u16.into();
    assert_eq!((r.r(), r.g(), r.b(), r.a()), (0, 1, 0, 2));
}

#[test]
fn pixel_sizes_and_codes() {
    let formats = [
        Pixel::RGBA8888(0.into()),
        Pixel::RGB888(0.into()),
        Pixel::RGBA4444(0u16.into()),
        Pixel::RGB444(0u16.into()),
    ];
    let sizes: Vec<usize> = formats.iter().map(|p| p.get_size()).collect();
    assert_eq!(sizes, vec![4, 4, 2, 2]);
    for (code, p) in formats.iter().enumerate() {
        assert_eq!(p.format_code(), code as u32);
        assert_eq!(Pixel::from_format_code(code as u32), Ok(*p));
    }
    assert_eq!(Pixel::from_format_code(4), Err(NifError::UnsupportedPixelFormat));
    assert_eq!(
        Pixel::RGB888(Pixel32U::from_u32(5)).blank(),
        Pixel::RGB888(Pixel32U::from_u32(0))
    );
}

#[test]
fn pixel_bytes_are_big_endian() {
    let mut out = Vec::new();
    Pixel::RGBA8888(Pixel32U::from_u32(0x0102_0304)).encode_into(&mut out);
    Pixel::RGB444(Pixel16U::from_u16(0xA0B0)).encode_into(&mut out);
    assert_eq!(out, vec![1, 2, 3, 4, 0xA0, 0xB0]);
    let d = Pixel::decode(Pixel::RGB444(0u16.into()), &out, 4);
    assert_eq!(d, Pixel::RGB444(Pixel16U::from_u16(0xA0B0)));
    let d = Pixel::decode(Pixel::RGB888(0.into()), &out, 0);
    assert_eq!(d, Pixel::RGB888(Pixel32U::from_u32(0x0102_0304)));
}

#[test]
fn header_encoding_layout() {
    let h = Header {
        width: 0x0102_0304,
        height: 5,
        pixel_format: Pixel::RGBA4444(0u16.into()),
        frame_count: 7,
        frame_rate_bits: 0x4000_0000,
    };
    let bytes = h.encode();
    assert_eq!(bytes.len(), HEADER_SIZE);
    assert_eq!(
        bytes,
        vec![1, 2, 3, 4, 0, 0, 0, 5, 0, 0, 0, 2, 0, 0, 0, 7, 0x40, 0, 0, 0]
    );
    assert_eq!(Header::decode(&bytes, 0), Ok(h));
    let mut bad = bytes.clone();
    bad[11] = 4;
    assert_eq!(Header::decode(&bad, 0), Err(NifError::UnsupportedPixelFormat));
}

#[test]
fn pixel_accessors_agree_for_every_format() {
    let cases = [
        Pixel::RGBA8888(Pixel32U::from_rgba(1, 2, 3, 4)),
        Pixel::RGB888(Pixel32U::from_rgba(250, 0, 17, 0)),
        Pixel::RGBA4444(Pixel16U::from_rgba(1, 2, 3, 4)),
        Pixel::RGB444(Pixel16U::new(15, 0, 9)),
    ];
    for v in cases {
        let hd = header(3, 4, v.blank());
        let mut frame = Frame::new(hd);
        assert_eq!(frame.data.len(), 3 * 4 * v.get_size());
        for y in 0..4 {
            for x in 0..3 {
                frame.set_pixel(x, y, v, hd).unwrap();
                assert_eq!(frame.get_pixel(x, y, hd), Ok(v));
            }
        }
        let all = frame.pixels(hd).unwrap();
        assert_eq!(all.len(), 12);
        assert!(all.iter().all(|p| *p == v));
    }
}

#[test]
fn set_pixel_writes_row_major_offset() {
    let hd = header(3, 2, Pixel::RGBA4444(0u16.into()));
    let mut frame = Frame::new(hd);
    frame.set_pixel(1, 1, Pixel::RGBA4444(Pixel16U::from_u16(0xABCD)), hd).unwrap();
    let mut want = vec![0u8; 12];
    want[8] = 0xAB;
    want[9] = 0xCD;
    assert_eq!(frame.data, want);
    let all = frame.pixels(hd).unwrap();
    assert_eq!(all[4], Pixel::RGBA4444(Pixel16U::from_u16(0xABCD)));
    assert_eq!(all[3], Pixel::RGBA4444(Pixel16U::from_u16(0)));
}

#[test]
fn out_of_range_leaves_frame_alone() {
    let hd = header(4, 2, Pixel::RGBA8888(0.into()));
    let mut frame = Frame::from(vec![9u8; 32]);
    let v = Pixel::RGBA8888(Pixel32U::from_u32(1));
    assert_eq!(frame.set_pixel(4, 0, v, hd), Err(NifError::OutOfRange));
    assert_eq!(frame.set_pixel(0, 2, v, hd), Err(NifError::OutOfRange));
    assert_eq!(frame.data, vec![9u8; 32]);
    assert_eq!(frame.get_pixel(4, 1, hd), Err(NifError::OutOfRange));
    assert_eq!(frame.get_pixel(3, 2, hd), Err(NifError::OutOfRange));
    assert_eq!(
        frame.get_pixel(3, 1, hd),
        Ok(Pixel::RGBA8888(Pixel32U::from_u32(0x0909_0909)))
    );
}

#[test]
fn frame_size_is_checked() {
    let hd = header(2, 2, Pixel::RGB444(0u16.into()));
    assert!(Frame::from_bytes(hd, vec![0; 8]).is_ok());
    assert_eq!(Frame::from_bytes(hd, vec![0; 7]).err(), Some(NifError::SizeMismatch));
    let mut short = Frame::from(vec![0; 7]);
    assert_eq!(short.get_pixel(0, 0, hd), Err(NifError::SizeMismatch));
    assert_eq!(
        short.set_pixel(0, 0, Pixel::RGB444(0u16.into()), hd),
        Err(NifError::SizeMismatch)
    );
    assert_eq!(short.pixels(hd).err(), Some(NifError::SizeMismatch));
    assert_eq!(Frame::size_for(hd), 8);
    assert_eq!(Frame::checked_size_for(hd), Some(8));
    let huge = header(u32::MAX, u32::MAX, Pixel::RGBA8888(0.into()));
    assert_eq!(Frame::checked_size_for(huge), None);
}

#[test]
fn frame_count_follows_appended_frames() {
    let mut nif = Nif::new(header(2, 3, Pixel::RGB888(Pixel32U::from_u32(77))));
    assert_eq!(nif.header.frame_count, 0);
    assert_eq!(nif.header.pixel_format, Pixel::RGB888(0.into()));
    for k in 1..=5u32 {
        nif.new_empty_frame();
        assert_eq!(nif.header.frame_count, k);
        assert_eq!(nif.get_frames().len(), k as usize);
        assert!(nif.get_frames().iter().all(|f| f.data == vec![0u8; 24]));
    }
    assert!(nif.get_frame(4).is_some());
    assert!(nif.get_frame(5).is_none());
}

#[test]
fn file_layout_starts_with_magic_version_flags() {
    let mut nif = Nif::new_default();
    assert_eq!(nif.version, CURRENT_VERSION);
    nif.version = 3;
    let bytes = nif.to_bytes(6).unwrap();
    assert_eq!(&bytes[..4], b"NIF\0");
    assert_eq!(u32::from_be_bytes([bytes[0], bytes[1], bytes[2], bytes[3]]), MAGIC_NUMBER);
    assert_eq!(&bytes[4..12], &[0, 0, 0, 3, 0, 0, 0, 6]);
    assert_eq!(bytes.len(), 32);
    let back = Nif::from_bytes(&bytes).unwrap();
    assert_eq!(back.version, 3);
    assert_eq!(back.features, 6);
}

#[test]
fn header_validation_errors() {
    let mut nif = Nif::new(header(1, 1, Pixel::RGBA8888(0.into())));
    nif.new_empty_frame();
    let good = nif.to_bytes(0).unwrap();
    assert!(Nif::from_bytes(&good).is_ok());

    let mut bad_magic = good.clone();
    bad_magic[0] = b'G';
    assert_eq!(Nif::from_bytes(&bad_magic).err(), Some(NifError::InvalidMagic));

    let mut newer = good.clone();
    newer[4..8].copy_from_slice(&(CURRENT_VERSION + 1).to_be_bytes());
    assert_eq!(Nif::from_bytes(&newer).err(), Some(NifError::UnsupportedVersion));

    let mut bad_format = good.clone();
    bad_format[20..24].copy_from_slice(&4u32.to_be_bytes());
    assert_eq!(Nif::from_bytes(&bad_format).err(), Some(NifError::UnsupportedPixelFormat));

    let mut bad_body = good.clone();
    bad_body[11] = FEATURE_FLAGS_COMPRESSION as u8;
    assert_eq!(Nif::from_bytes(&bad_body).err(), Some(NifError::TruncatedData));

    assert_eq!(Nif::from_bytes(&good[..3]).err(), Some(NifError::TruncatedData));
}

#[test]
fn from_body_splits_and_ignores_the_rest() {
    let mut hd = header(1, 2, Pixel::RGB444(0u16.into()));
    hd.frame_count = 2;
    let body = [1u8, 2, 3, 4, 5, 6, 7, 8, 9];
    let nif = Nif::from_body(1, 0, hd, &body).unwrap();
    assert_eq!(nif.get_frames()[0].data, vec![1, 2, 3, 4]);
    assert_eq!(nif.get_frames()[1].data, vec![5, 6, 7, 8]);
    assert_eq!(Nif::from_body(1, 0, hd, &body[..7]).err(), Some(NifError::TruncatedData));
}
