use iconview::codec::load_image;
use iconview::container::load_ico_frames;

const PNG_MAGIC: [u8; 8] = [0x89, 0x50, 0x4E, 0x47, 0x0D, 0x0A, 0x1A, 0x0A];

fn solid_rgba(width: u32, height: u32, alpha: u8) -> Vec<u8> {
    let mut rgba = Vec::new();
    let mut i: u32 = 0;
    while i < width * height {
        rgba.push((i % 251) as u8);
        rgba.push(((i * 7) % 251) as u8);
        rgba.push(((i * 13) % 251) as u8);
        rgba.push(alpha);
        i += 1;
    }
    rgba
}

fn ico_bytes(entries: Vec<ico::IconDirEntry>) -> Vec<u8> {
    let mut dir = ico::IconDir::new(ico::ResourceType::Icon);
    for e in entries {
        dir.add_entry(e);
    }
    let mut out = Vec::new();
    dir.write(&mut out).unwrap();
    out
}

#[test]
fn empty_container_decodes_to_empty_sequence() {
    // a valid directory that declares zero frames
    let bytes: Vec<u8> = vec![0x00, 0x00, 0x01, 0x00, 0x00, 0x00];
    let frames = load_ico_frames(&bytes).unwrap();
    assert_eq!(frames.len(), 0);
}

#[test]
fn truncated_frame_data_fails_with_error() {
    // one directory entry declaring 4096 bytes of data that the file lacks
    let mut bytes: Vec<u8> = vec![0x00, 0x00, 0x01, 0x00, 0x01, 0x00];
    bytes.extend_from_slice(&[
        16, 16, 0, 0, // width, height, colors, reserved
        1, 0, 32, 0, // planes, bpp
        0x00, 0x10, 0x00, 0x00, // data size: 4096
        0x16, 0x00, 0x00, 0x00, // data offset: 22
    ]);
    bytes.extend_from_slice(&[0u8; 8]);
    let err = load_ico_frames(&bytes).unwrap_err();
    assert!(!err.is_empty());
}

#[test]
fn oversized_declared_dimensions_fail_without_decoding() {
    // a well-formed directory whose raw frame declares a 134217728x2 bitmap:
    // the decoder must reject it as malformed, not attempt to decode it
    let mut bytes: Vec<u8> = vec![0x00, 0x00, 0x01, 0x00, 0x01, 0x00];
    bytes.extend_from_slice(&[
        0, 0, 0, 0, // width, height (0 encodes a large size), colors, reserved
        1, 0, 32, 0, // planes, bpp
        40, 0, 0, 0, // data size
        22, 0, 0, 0, // data offset
    ]);
    bytes.extend_from_slice(&[40, 0, 0, 0]); // header size
    bytes.extend_from_slice(&[0, 0, 0, 8]); // width 0x0800_0000
    bytes.extend_from_slice(&[4, 0, 0, 0]); // doubled height
    bytes.extend_from_slice(&[1, 0, 32, 0]); // planes, bit count
    bytes.extend_from_slice(&[0u8; 24]);
    let err = load_ico_frames(&bytes).unwrap_err();
    assert!(!err.is_empty());
}

#[test]
fn garbage_header_fails_with_error() {
    let bytes: Vec<u8> = vec![0xff, 0xff, 0xff, 0xff];
    assert!(load_ico_frames(&bytes).is_err());
}

#[test]
fn malformed_frame_payload_fails_whole_call() {
    // a well-formed directory whose single entry holds undecodable data
    let payload = [0u8; 8];
    let mut bytes: Vec<u8> = vec![0x00, 0x00, 0x01, 0x00, 0x01, 0x00];
    bytes.extend_from_slice(&[
        2, 2, 0, 0, //
        1, 0, 32, 0, //
        8, 0, 0, 0, // data size: 8
        0x16, 0x00, 0x00, 0x00, // data offset: 22
    ]);
    bytes.extend_from_slice(&payload);
    assert!(load_ico_frames(&bytes).is_err());
}

#[test]
fn smooth_alpha_raw_frame_beats_larger_compact_frame() {
    // Frame A: 16x16, compact format, fully opaque.
    // Frame B: 32x32, raw format, with a partially transparent pixel.
    // B must come first: smooth alpha beats both format and area.
    let a = ico::IconImage::from_rgba_data(16, 16, solid_rgba(16, 16, 255));
    let mut rgba_b = solid_rgba(32, 32, 255);
    rgba_b[3] = 128;
    let b = ico::IconImage::from_rgba_data(32, 32, rgba_b);
    let bytes = ico_bytes(vec![
        ico::IconDirEntry::encode_as_png(&a).unwrap(),
        ico::IconDirEntry::encode_as_bmp(&b).unwrap(),
    ]);
    let frames = load_ico_frames(&bytes).unwrap();
    assert_eq!(frames.len(), 2);
    assert_eq!(frames[0].width, 32);
    assert_eq!(frames[0].height, 32);
    assert!(frames[0].has_smooth_alpha);
    assert!(!frames[0].is_png);
    assert_eq!(frames[1].width, 16);
    assert_eq!(frames[1].height, 16);
    assert!(!frames[1].has_smooth_alpha);
    assert!(frames[1].is_png);
}

#[test]
fn frames_are_reencoded_as_png() {
    let img = ico::IconImage::from_rgba_data(4, 4, solid_rgba(4, 4, 255));
    let bytes = ico_bytes(vec![ico::IconDirEntry::encode_as_bmp(&img).unwrap()]);
    let frames = load_ico_frames(&bytes).unwrap();
    assert_eq!(frames.len(), 1);
    // the raw BMP frame leaves the decoder as a PNG buffer holding the
    // same pixels
    assert_eq!(&frames[0].data[0..8], &PNG_MAGIC);
    let round = image::load_from_memory(&frames[0].data).unwrap().to_rgba8();
    assert_eq!(round.width(), 4);
    assert_eq!(round.height(), 4);
    assert_eq!(round.into_raw(), solid_rgba(4, 4, 255));
}

#[test]
fn frames_sorted_by_area_within_equal_flags() {
    let small = ico::IconImage::from_rgba_data(4, 4, solid_rgba(4, 4, 255));
    let large = ico::IconImage::from_rgba_data(8, 8, solid_rgba(8, 8, 255));
    let bytes = ico_bytes(vec![
        ico::IconDirEntry::encode_as_bmp(&small).unwrap(),
        ico::IconDirEntry::encode_as_bmp(&large).unwrap(),
    ]);
    let frames = load_ico_frames(&bytes).unwrap();
    assert_eq!(frames.len(), 2);
    assert_eq!(frames[0].width, 8);
    assert_eq!(frames[1].width, 4);
}

#[test]
fn load_image_reencodes_to_png() {
    // start from a BMP so the output provably differs from the input
    let rgba = solid_rgba(5, 3, 255);
    let img = image::RgbaImage::from_raw(5, 3, rgba.clone()).unwrap();
    let mut bmp = Vec::new();
    image::DynamicImage::ImageRgba8(img)
        .write_to(&mut std::io::Cursor::new(&mut bmp), image::ImageFormat::Bmp)
        .unwrap();
    let out = load_image(&bmp).unwrap();
    assert_eq!(&out[0..8], &PNG_MAGIC);
    let round = image::load_from_memory(&out).unwrap().to_rgba8();
    assert_eq!(round.width(), 5);
    assert_eq!(round.height(), 3);
    assert_eq!(round.into_raw(), rgba);
}

#[test]
fn load_image_rejects_undecodable_bytes() {
    let junk: Vec<u8> = vec![1, 2, 3, 4, 5];
    assert!(load_image(&junk).is_err());
}
