use jc3vrs::gfx::{read_string, read_u16_le, read_u30, read_u32_le, GfxError, GfxFile};
use std::io::Write;

/// A frame header with a zero-width RECT: one RECT byte, then frame rate and count.
fn frame_header() -> Vec<u8> {
    vec![0x00, 0x00, 0x18, 0x01, 0x00]
}

fn tag(code: u16, data: &[u8]) -> Vec<u8> {
    let mut out = Vec::new();
    if data.len() < 63 {
        let h = (code << 6) | data.len() as u16;
        out.extend_from_slice(&h.to_le_bytes());
    } else {
        let h = (code << 6) | 0x3F;
        out.extend_from_slice(&h.to_le_bytes());
        out.extend_from_slice(&(data.len() as u32).to_le_bytes());
    }
    out.extend_from_slice(data);
    out
}

fn file(magic: &[u8; 3], body: &[u8]) -> Vec<u8> {
    let mut out = magic.to_vec();
    out.push(10);
    out.extend_from_slice(&((body.len() + 8) as u32).to_le_bytes());
    out.extend_from_slice(body);
    out
}

fn simple_body() -> Vec<u8> {
    let mut body = frame_header();
    body.extend(tag(69, &[0x08]));
    body.extend(tag(1, &[]));
    body.extend(tag(0, &[]));
    body.extend(tag(1, &[]));
    body
}

#[test]
fn parses_an_uncompressed_file() {
    let data = file(b"FWS", &simple_body());
    let g = GfxFile::parse(&data).expect("parses");
    assert_eq!(g.magic, "FWS");
    assert_eq!(g.version, 10);
    assert_eq!(g.file_length as usize, data.len());
    assert_eq!(g.body, simple_body());
    let codes: Vec<u16> = g.tags.iter().map(|t| t.code).collect();
    // Parsing stops at the end tag; the tag after it is not read.
    assert_eq!(codes, vec![69, 1, 0]);
    assert_eq!(g.tags[0].data, vec![0x08]);
}

#[test]
fn gfx_signature_is_read_like_fws() {
    let data = file(b"GFX", &simple_body());
    let g = GfxFile::parse(&data).expect("parses");
    assert_eq!(g.magic, "GFX");
    assert_eq!(g.tags.len(), 3);
}

#[test]
fn compressed_body_is_inflated() {
    let body = simple_body();
    let mut enc = flate2::write::ZlibEncoder::new(Vec::new(), flate2::Compression::default());
    enc.write_all(&body).unwrap();
    let compressed = enc.finish().unwrap();
    assert_ne!(compressed, body);
    let data = file(b"CWS", &compressed);
    let g = GfxFile::parse(&data).expect("inflates");
    assert_eq!(g.magic, "CWS");
    assert_eq!(g.body, body);
    assert_eq!(g.tags.len(), 3);
    let data = file(b"CFX", &compressed);
    assert_eq!(GfxFile::parse(&data).expect("inflates").body, body);
}

#[test]
fn broken_zlib_stream_is_an_error() {
    let data = file(b"CWS", &[1, 2, 3, 4, 5]);
    assert_eq!(GfxFile::parse(&data).err(), Some(GfxError::Decompress));
}

#[test]
fn header_errors() {
    assert_eq!(GfxFile::parse(&[1, 2, 3]).err(), Some(GfxError::TooShort(3)));
    assert_eq!(GfxFile::parse(&file(b"ZWS", &simple_body())).err(), Some(GfxError::LzmaUnsupported));
    assert_eq!(
        GfxFile::parse(&file(b"ABC", &simple_body())).err(),
        Some(GfxError::UnknownMagic(b'A', b'B', b'C'))
    );
    assert_eq!(GfxFile::parse(&file(b"FWS", &[])).err(), Some(GfxError::EmptyBody));
    // A RECT of 31-bit fields needs 17 bytes plus four more.
    assert_eq!(
        GfxFile::parse(&file(b"FWS", &[0xF8, 0, 0])).err(),
        Some(GfxError::FrameHeaderPastBody)
    );
}

#[test]
fn long_and_truncated_tags() {
    let payload: Vec<u8> = (0..100u8).collect();
    let mut body = tag(87, &payload);
    body.extend(tag(0, &[]));
    let tags = GfxFile::parse_tags(&body);
    assert_eq!(tags.len(), 2);
    assert_eq!(tags[0].code, 87);
    assert_eq!(tags[0].data, payload);

    // A header that claims 10 bytes when 3 are left takes the 3.
    let truncated = vec![(5u16 << 6 | 10) as u8, 0x01, 7, 8, 9];
    let tags = GfxFile::parse_tags(&truncated);
    assert_eq!(tags.len(), 1);
    assert_eq!(tags[0].code, 5);
    assert_eq!(tags[0].data, vec![7, 8, 9]);

    // A long header without room for its length word ends the stream.
    let cut = vec![0xFF, 0x00, 1, 2];
    assert!(GfxFile::parse_tags(&cut).is_empty());
    assert!(GfxFile::parse_tags(&[0x40]).is_empty());
}

#[test]
fn fixed_width_readers() {
    let data = [0x34, 0x12, 0x78, 0x56, 0x34, 0x12];
    let mut pos = 0;
    assert_eq!(read_u16_le(&data, &mut pos), 0x1234);
    assert_eq!(pos, 2);
    assert_eq!(read_u32_le(&data, &mut pos), 0x1234_5678);
    assert_eq!(pos, 6);
}

#[test]
fn variable_length_integers() {
    let mut pos = 0;
    assert_eq!(read_u30(&[0x05], &mut pos), 5);
    assert_eq!(pos, 1);
    let mut pos = 0;
    assert_eq!(read_u30(&[0x80, 0x01], &mut pos), 128);
    assert_eq!(pos, 2);
    let mut pos = 0;
    assert_eq!(read_u30(&[0xFF, 0xFF, 0xFF, 0xFF, 0x0F, 0x33], &mut pos), u32::MAX);
    assert_eq!(pos, 5);
    // Five bytes at most, even when the fifth asks for more; bits past 32 are dropped.
    let mut pos = 0;
    assert_eq!(read_u30(&[0x80, 0x80, 0x80, 0x80, 0xFF, 0x01], &mut pos), 0xF000_0000);
    assert_eq!(pos, 5);
    // At the end of the data nothing is read.
    let mut pos = 2;
    assert_eq!(read_u30(&[0x80, 0x80], &mut pos), 0);
    assert_eq!(pos, 2);
    let mut pos = 0;
    assert_eq!(read_u30(&[0x81, 0x82], &mut pos), 1 + (2 << 7));
    assert_eq!(pos, 2);
}

#[test]
fn nul_terminated_strings() {
    let data = b"abc\0de";
    let mut pos = 0;
    assert_eq!(read_string(data, &mut pos), "abc");
    assert_eq!(pos, 4);
    // No terminator: the rest is taken and the position lands one past the end.
    assert_eq!(read_string(data, &mut pos), "de");
    assert_eq!(pos, 7);
    let mut pos = 0;
    assert_eq!(read_string(&[0xFF, b'x', 0], &mut pos), "\u{FFFD}x");
}
