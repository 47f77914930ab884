use nif::{Header, Nif, Pixel, Pixel32U, FEATURE_FLAGS_COMPRESSION};
use rand::Rng;

fn rgba_header(width: u32, height: u32) -> Header {
    Header {
        width,
        height,
        pixel_format: Pixel::RGBA8888(0.into()),
        frame_count: 0,
        frame_rate_bits: 0.0f32.to_bits(),
    }
}

fn assert_same(a: &Nif, b: &Nif) {
    assert_eq!(a.header.width, b.header.width);
    assert_eq!(a.header.height, b.header.height);
    assert_eq!(a.header.pixel_format, b.header.pixel_format);
    assert_eq!(a.header.frame_count, b.header.frame_count);
    assert_eq!(a.header.frame_rate_bits, b.header.frame_rate_bits);
    assert_eq!(a.get_frames().len(), b.get_frames().len());
    for frame_pair in a.get_frames().iter().zip(b.get_frames().iter()) {
        assert_eq!(&frame_pair.0, &frame_pair.1);
    }
}

#[test]
fn test_access_pixels() {
    let mut nif = Nif::new(rgba_header(10, 10));

    nif.new_empty_frame();

    let hd = nif.header;
    let frame = nif.get_frame(0).unwrap();
    for i in 0..10 {
        for j in 0..10 {
            frame
                .set_pixel(i, j, Pixel::RGBA8888(Pixel32U::from_rgba(i as u8, j as u8, 0, 0)), hd)
                .unwrap();
        }
    }
    for i in 0..10 {
        for j in 0..10 {
            let pixel = frame.get_pixel(i, j, hd).unwrap();
            match pixel {
                Pixel::RGBA8888(p) => {
                    assert_eq!(p.r(), i as u8);
                    assert_eq!(p.g(), j as u8);
                    assert_eq!(p.b(), 0);
                    assert_eq!(p.a(), 0);
                }
                _ => panic!("Invalid pixel type."),
            }
        }
    }
}

#[test]
fn test_serialize() {
    let mut nif = Nif::new(rgba_header(400, 400));

    nif.new_empty_frame();
    let hd = nif.header;
    {
        let frame = nif.get_frame(0).unwrap();
        for i in 0..400 {
            for j in 0..400 {
                frame
                    .set_pixel(
                        i,
                        j,
                        Pixel::RGBA8888(Pixel32U::from_rgba(
                            (i % 0xFF) as u8,
                            (j & 0xFF) as u8,
                            0,
                            0,
                        )),
                        hd,
                    )
                    .unwrap();
            }
        }
    }
    // uncompressed
    let bytes = nif.to_bytes(0).unwrap();
    let nif_read = Nif::from_bytes(&bytes).unwrap();
    assert_same(&nif, &nif_read);
    let frame = &nif_read.get_frames()[0];
    for i in 0..400u32 {
        for j in 0..400u32 {
            match frame.get_pixel(i, j, nif_read.header).unwrap() {
                Pixel::RGBA8888(p) => {
                    assert_eq!(p.r(), (i % 0xFF) as u8);
                    assert_eq!(p.g(), (j & 0xFF) as u8);
                    assert_eq!(p.b(), 0);
                    assert_eq!(p.a(), 0);
                }
                _ => panic!("Invalid pixel type."),
            }
        }
    }

    // compressed
    let bytes = nif.to_bytes(FEATURE_FLAGS_COMPRESSION).unwrap();
    let nif_read_comp = Nif::from_bytes(&bytes).unwrap();
    assert_same(&nif, &nif_read_comp);
}

#[test]
fn test_serialize_random() {
    let mut nif = Nif::new(rgba_header(400, 400));
    let mut rng = rand::thread_rng();

    nif.new_empty_frame();
    let hd = nif.header;
    {
        let frame = nif.get_frame(0).unwrap();
        for i in 0..400 {
            for j in 0..400 {
                frame
                    .set_pixel(
                        i,
                        j,
                        Pixel::RGBA8888(Pixel32U::from_rgba(
                            rng.gen(),
                            rng.gen(),
                            rng.gen(),
                            rng.gen(),
                        )),
                        hd,
                    )
                    .unwrap();
            }
        }
    }
    // uncompressed
    let bytes = nif.to_bytes(0).unwrap();
    let nif_read = Nif::from_bytes(&bytes).unwrap();
    assert_same(&nif, &nif_read);

    // compressed
    let bytes = nif.to_bytes(FEATURE_FLAGS_COMPRESSION).unwrap();
    let nif_read_comp = Nif::from_bytes(&bytes).unwrap();
    assert_same(&nif, &nif_read_comp);
}

#[test]
fn empty_container_round_trips_both_ways() {
    let nif = Nif::new(rgba_header(3, 2));
    let raw = nif.to_bytes(0).unwrap();
    assert_eq!(raw.len(), 32);
    let back = Nif::from_bytes(&raw).unwrap();
    assert_same(&nif, &back);
    assert_eq!(back.features, 0);

    let packed = nif.to_bytes(FEATURE_FLAGS_COMPRESSION).unwrap();
    assert!(packed.len() > 32);
    let back = Nif::from_bytes(&packed).unwrap();
    assert_same(&nif, &back);
    assert_eq!(back.features, FEATURE_FLAGS_COMPRESSION);
}

#[test]
fn truncated_body_is_reported() {
    let mut nif = Nif::new(rgba_header(2, 2));
    nif.new_empty_frame();
    nif.new_empty_frame();
    let mut raw = nif.to_bytes(0).unwrap();
    assert_eq!(raw.len(), 32 + 2 * 16);
    raw.pop();
    assert_eq!(Nif::from_bytes(&raw).err(), Some(nif::NifError::TruncatedData));

    let mut packed = nif.to_bytes(FEATURE_FLAGS_COMPRESSION).unwrap();
    packed.pop();
    assert_eq!(Nif::from_bytes(&packed).err(), Some(nif::NifError::TruncatedData));

    // a file cut inside its header
    assert_eq!(Nif::from_bytes(&raw[..20]).err(), Some(nif::NifError::TruncatedData));
}

#[test]
fn compressed_body_differs_from_raw_body() {
    let mut nif = Nif::new(rgba_header(8, 8));
    nif.new_empty_frame();
    let raw = nif.to_bytes(0).unwrap();
    let packed = nif.to_bytes(FEATURE_FLAGS_COMPRESSION).unwrap();
    assert_eq!(&raw[..8], &packed[..8]);
    assert_eq!(&raw[12..32], &packed[12..32]);
    assert_eq!(packed[11], 1);
    // gzip magic at the start of the body
    assert_eq!(packed[32], 0x1f);
    assert_eq!(packed[33], 0x8b);
    assert_ne!(raw.len(), packed.len());
}

#[test]
fn all_formats_round_trip_with_several_frames() {
    for (k, format) in [
        Pixel::RGBA8888(0.into()),
        Pixel::RGB888(0.into()),
        Pixel::RGBA4444(0u16.into()),
        Pixel::RGB444(0u16.into()),
    ]
    .into_iter()
    .enumerate()
    {
        let mut nif = Nif::new(Header {
            width: 5,
            height: 3,
            pixel_format: format,
            frame_count: 9,
            frame_rate_bits: 24.0f32.to_bits(),
        });
        assert_eq!(nif.header.frame_count, 0);
        for _ in 0..3 {
            nif.new_empty_frame();
        }
        let hd = nif.header;
        nif.get_frames_mut()[1].data[k] = 0xAB;
        for features in [0, FEATURE_FLAGS_COMPRESSION] {
            let bytes = nif.to_bytes(features).unwrap();
            let back = Nif::from_bytes(&bytes).unwrap();
            assert_same(&nif, &back);
            assert_eq!(f32::from_bits(back.header.frame_rate_bits), 24.0);
            assert_eq!(back.header, hd);
        }
    }
}
