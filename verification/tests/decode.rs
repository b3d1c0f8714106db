use cti::crc32;
use cti::CompressionId;
use cti::CtiError;
use cti::CTIDecoder;

/// Builds a CTI file: header, tile index, and the payloads laid out
/// back to back after the index. Each tile is (payload, original_size,
/// stored_crc).
fn make_cti(
    flags: u16,
    w: u32,
    h: u32,
    ts: u32,
    tiles_x: u32,
    tiles_y: u32,
    color_type: u8,
    compression: u8,
    tiles: &[(Vec<u8>, u32, u32)],
) -> Vec<u8> {
    let mut b: Vec<u8> = Vec::new();
    b.extend_from_slice(b"CTI1");
    b.extend_from_slice(&1u16.to_le_bytes());
    b.extend_from_slice(&flags.to_le_bytes());
    b.extend_from_slice(&w.to_le_bytes());
    b.extend_from_slice(&h.to_le_bytes());
    b.extend_from_slice(&ts.to_le_bytes());
    b.extend_from_slice(&tiles_x.to_le_bytes());
    b.extend_from_slice(&tiles_y.to_le_bytes());
    b.push(color_type);
    b.push(compression);
    b.push(80);
    b.extend_from_slice(&[0u8; 33]);
    let mut offset = 64u64 + 20 * tiles.len() as u64;
    for (payload, original_size, crc) in tiles {
        b.extend_from_slice(&offset.to_le_bytes());
        b.extend_from_slice(&(payload.len() as u32).to_le_bytes());
        b.extend_from_slice(&original_size.to_le_bytes());
        b.extend_from_slice(&crc.to_le_bytes());
        offset += payload.len() as u64;
    }
    for (payload, _, _) in tiles {
        b.extend_from_slice(payload);
    }
    b
}

#[test]
fn decode_single_tile_rgba8_verbatim() {
    // A 4x4 single-tile RGBA8 image with an uncompressed 64-byte payload
    // decodes to a 64-byte raster equal to the payload.
    let payload: Vec<u8> = (0u8..64).collect();
    let crc = crc32(&payload);
    let file = make_cti(0, 4, 4, 4, 1, 1, 4, 0, &[(payload.clone(), 64, crc)]);
    let (hdr, data) = CTIDecoder::decode_file(&file).unwrap();
    assert_eq!(&hdr.magic, b"CTI1");
    assert_eq!(hdr.width, 4);
    assert_eq!(hdr.height, 4);
    assert_eq!(hdr.tile_size, 4);
    assert_eq!(hdr.tiles_x, 1);
    assert_eq!(hdr.tiles_y, 1);
    assert_eq!(hdr.color_type, 4);
    assert_eq!(hdr.compression, 0);
    assert_eq!(data.len(), 64);
    assert_eq!(data, payload);
}

#[test]
fn decode_multi_tile_l8_roundtrip() {
    // An 8x8 grayscale image as four 4x4 uncompressed tiles reproduces
    // the original pixels exactly.
    let mut tiles = Vec::new();
    for t in 0u8..4 {
        let payload: Vec<u8> = (0u8..16).map(|i| t * 40 + i).collect();
        let crc = crc32(&payload);
        tiles.push((payload, 16u32, crc));
    }
    let file = make_cti(0, 8, 8, 4, 2, 2, 1, 0, &tiles);
    let (_, data) = CTIDecoder::decode_file(&file).unwrap();
    let mut expect = vec![0u8; 64];
    for py in 0..8usize {
        for px in 0..8usize {
            let t = (py / 4) * 2 + px / 4;
            let local = (py % 4) * 4 + px % 4;
            expect[py * 8 + px] = tiles[t].0[local];
        }
    }
    assert_eq!(data, expect);
}

#[test]
fn decode_edge_clipping_bottom_right_tile() {
    // width = height = 10, tile_size = 8, tiles 2x2: the bottom-right
    // tile copies only a 2x2 sub-rectangle, not its full 8x8 buffer.
    let mut tiles = Vec::new();
    for t in 0u8..4 {
        let payload: Vec<u8> = (0..64).map(|i| (t as usize * 64 + i) as u8).collect();
        let crc = crc32(&payload);
        tiles.push((payload, 64u32, crc));
    }
    let file = make_cti(0, 10, 10, 8, 2, 2, 1, 0, &tiles);
    let (_, data) = CTIDecoder::decode_file(&file).unwrap();
    assert_eq!(data.len(), 100);
    let mut expect = vec![0u8; 100];
    for py in 0..10usize {
        for px in 0..10usize {
            let t = (py / 8) * 2 + px / 8;
            let local = (py % 8) * 8 + px % 8;
            expect[py * 10 + px] = tiles[t].0[local];
        }
    }
    assert_eq!(data, expect);
    // The bottom-right tile landed as exactly its 2x2 corner.
    assert_eq!(data[8 * 10 + 8], tiles[3].0[0]);
    assert_eq!(data[8 * 10 + 9], tiles[3].0[1]);
    assert_eq!(data[9 * 10 + 8], tiles[3].0[8]);
    assert_eq!(data[9 * 10 + 9], tiles[3].0[9]);
}

#[test]
fn decode_unknown_compression_99() {
    let payload = vec![1u8, 2, 3, 4];
    let crc = crc32(&payload);
    let file = make_cti(0, 2, 2, 2, 1, 1, 1, 99, &[(payload, 4, crc)]);
    let err = CTIDecoder::decode_file(&file).unwrap_err();
    assert_eq!(err, CtiError::UnsupportedCompression(99));
    assert_eq!(CompressionId::from(99).describe(), "Unknown(99)");
    assert_eq!(err.message(), "Unsupported compression: Unknown(99)");
}

#[test]
fn decode_declared_but_unimplemented_modes() {
    for mode in [1u8, 2, 3, 4] {
        let payload = vec![9u8; 4];
        let crc = crc32(&payload);
        let file = make_cti(0, 2, 2, 2, 1, 1, 1, mode, &[(payload, 4, crc)]);
        let err = CTIDecoder::decode_file(&file).unwrap_err();
        assert_eq!(err, CtiError::UnsupportedCompression(mode));
    }
}

#[test]
fn metadata_probe_on_truncated_file() {
    // A file cut right after the reserved padding still yields a header
    // from the probe, but full decode fails with an I/O error.
    let payload = vec![5u8; 4];
    let crc = crc32(&payload);
    let full = make_cti(0, 2, 2, 2, 1, 1, 1, 0, &[(payload, 4, crc)]);
    let truncated = &full[..64];
    let hdr = CTIDecoder::info(truncated).unwrap();
    assert_eq!(hdr.width, 2);
    assert_eq!(hdr.height, 2);
    assert_eq!(hdr.color_type, 1);
    assert_eq!(
        CTIDecoder::decode_file(truncated).unwrap_err(),
        CtiError::IOError
    );
}

#[test]
fn probe_needs_whole_header() {
    let short = vec![0u8; 10];
    assert_eq!(CTIDecoder::info(&short).unwrap_err(), CtiError::IOError);
    assert_eq!(CTIDecoder::decode_file(&short).unwrap_err(), CtiError::IOError);
}

#[test]
fn decode_rejects_bad_magic() {
    let payload = vec![5u8; 4];
    let crc = crc32(&payload);
    let mut file = make_cti(0, 2, 2, 2, 1, 1, 1, 0, &[(payload, 4, crc)]);
    file[0] = b'X';
    assert_eq!(CTIDecoder::decode_file(&file).unwrap_err(), CtiError::FormatError);
    // The probe does not validate the magic.
    assert!(CTIDecoder::info(&file).is_ok());
}

#[test]
fn decode_rejects_unknown_color_type() {
    let payload = vec![5u8; 4];
    let crc = crc32(&payload);
    let file = make_cti(0, 2, 2, 2, 1, 1, 9, 0, &[(payload, 4, crc)]);
    assert_eq!(
        CTIDecoder::decode_file(&file).unwrap_err(),
        CtiError::UnsupportedColorType(9)
    );
}

#[test]
fn decode_detects_any_single_bit_flip() {
    // Flipping any single bit of the tile payload while keeping the
    // stored checksum must fail with an integrity error.
    let payload: Vec<u8> = (0u8..16).collect();
    let crc = crc32(&payload);
    for byte in 0..16usize {
        for bit in 0..8 {
            let mut tampered = payload.clone();
            tampered[byte] ^= 1u8 << bit;
            let file = make_cti(0, 4, 4, 4, 1, 1, 1, 0, &[(tampered, 16, crc)]);
            assert_eq!(
                CTIDecoder::decode_file(&file).unwrap_err(),
                CtiError::IntegrityError,
                "flip at byte {byte} bit {bit}"
            );
        }
    }
}

#[test]
fn decode_rejects_short_tile_buffer() {
    // An uncompressed tile shorter than its clipped region is a format
    // error: the compositor would read past its end.
    let payload: Vec<u8> = (0u8..8).collect();
    let crc = crc32(&payload);
    let file = make_cti(0, 4, 4, 4, 1, 1, 1, 0, &[(payload, 8, crc)]);
    assert_eq!(CTIDecoder::decode_file(&file).unwrap_err(), CtiError::FormatError);
}

#[test]
fn decode_rejects_payload_past_end() {
    let payload: Vec<u8> = (0u8..16).collect();
    let crc = crc32(&payload);
    let mut file = make_cti(0, 4, 4, 4, 1, 1, 1, 0, &[(payload, 16, crc)]);
    // Point the tile's offset past the end of the file.
    let far = (file.len() as u64 + 1).to_le_bytes();
    file[64..72].copy_from_slice(&far);
    assert_eq!(CTIDecoder::decode_file(&file).unwrap_err(), CtiError::IOError);
}

#[test]
fn decode_zstd_tile() {
    let original: Vec<u8> = (0u8..16).map(|i| i * 3).collect();
    let comp = zstd::bulk::compress(&original, 3).unwrap();
    let crc = crc32(&original);
    let file = make_cti(0, 4, 4, 4, 1, 1, 1, 10, &[(comp, 16, crc)]);
    let (hdr, data) = CTIDecoder::decode_file(&file).unwrap();
    assert_eq!(hdr.compression, 10);
    assert_eq!(data, original);
}

#[test]
fn decode_zstd_garbage_fails() {
    let garbage = vec![0xAAu8; 12];
    let file = make_cti(0, 4, 4, 4, 1, 1, 1, 10, &[(garbage, 16, 0)]);
    assert_eq!(CTIDecoder::decode_file(&file).unwrap_err(), CtiError::FormatError);
}

#[test]
fn decode_lz4_tile() {
    let original: Vec<u8> = (0u8..16).map(|i| 255 - i).collect();
    let comp = lz4_flex::block::compress_prepend_size(&original);
    let crc = crc32(&original);
    let file = make_cti(0, 4, 4, 4, 1, 1, 1, 11, &[(comp, 16, crc)]);
    let (hdr, data) = CTIDecoder::decode_file(&file).unwrap();
    assert_eq!(hdr.compression, 11);
    assert_eq!(data, original);
}

#[test]
fn decode_lz4_garbage_fails() {
    let garbage = vec![0x11u8, 0x22];
    let file = make_cti(0, 4, 4, 4, 1, 1, 1, 11, &[(garbage, 16, 0)]);
    assert_eq!(CTIDecoder::decode_file(&file).unwrap_err(), CtiError::FormatError);
}

#[test]
fn decode_applies_inverse_transform_rgb8() {
    // One RGB8 pixel stored as (Y, Cb, Cr) with the transform flag set
    // comes back as the original (R, G, B).
    let (r, g, b) = (100u8, 120u8, 140u8);
    let cb = (b as i32) - (g as i32);
    let cr = (r as i32) - (g as i32);
    let y = (g as i32) + ((cb + cr) >> 2);
    let stored = vec![y as u8, cb as u8, cr as u8];
    let crc = crc32(&stored);
    let file = make_cti(1, 1, 1, 1, 1, 1, 3, 0, &[(stored, 3, crc)]);
    let (_, data) = CTIDecoder::decode_file(&file).unwrap();
    assert_eq!(data, vec![r, g, b]);
}

#[test]
fn decode_skips_transform_when_flag_clear() {
    let stored = vec![120u8, 20, 0xEC];
    let crc = crc32(&stored);
    let file = make_cti(0, 1, 1, 1, 1, 1, 3, 0, &[(stored.clone(), 3, crc)]);
    let (_, data) = CTIDecoder::decode_file(&file).unwrap();
    assert_eq!(data, stored);
}

#[test]
fn decode_skips_transform_for_non_rgb() {
    // Flag bit set, but L8 data: the transform does not apply.
    let stored = vec![9u8, 8, 7, 6];
    let crc = crc32(&stored);
    let file = make_cti(1, 2, 2, 2, 1, 1, 1, 0, &[(stored.clone(), 4, crc)]);
    let (_, data) = CTIDecoder::decode_file(&file).unwrap();
    assert_eq!(data, stored);
}

#[test]
fn decode_applies_inverse_transform_rgb16() {
    let mut stored = Vec::new();
    stored.extend_from_slice(&30000u16.to_le_bytes());
    stored.extend_from_slice(&1000u16.to_le_bytes());
    stored.extend_from_slice(&(-1000i16 as u16).to_le_bytes());
    let crc = crc32(&stored);
    let file = make_cti(1, 1, 1, 1, 1, 1, 5, 0, &[(stored, 6, crc)]);
    let (_, data) = CTIDecoder::decode_file(&file).unwrap();
    let mut expect = Vec::new();
    expect.extend_from_slice(&29000u16.to_le_bytes());
    expect.extend_from_slice(&30000u16.to_le_bytes());
    expect.extend_from_slice(&31000u16.to_le_bytes());
    assert_eq!(data, expect);
}

#[test]
fn decode_tile_entirely_outside_image() {
    // A 4x4 image with a 2x1 tile grid: the second tile starts at x = 4,
    // beyond the image, so it contributes nothing and its payload may be
    // empty (the checksum of no bytes is 0).
    let payload: Vec<u8> = (0u8..16).collect();
    let crc = crc32(&payload);
    let tiles = vec![(payload.clone(), 16u32, crc), (Vec::new(), 0u32, crc32(&[]))];
    let file = make_cti(0, 4, 4, 4, 2, 1, 1, 0, &tiles);
    let (_, data) = CTIDecoder::decode_file(&file).unwrap();
    assert_eq!(data, payload);
}

#[test]
fn decode_zero_tiles_yields_zero_raster() {
    // A tile grid of 0x0 has no payloads: the raster stays zeroed.
    let file = make_cti(0, 3, 2, 4, 0, 0, 1, 0, &[]);
    let (_, data) = CTIDecoder::decode_file(&file).unwrap();
    assert_eq!(data, vec![0u8; 6]);
}
