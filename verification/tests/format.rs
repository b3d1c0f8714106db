use cti::color_name;
use cti::crc32;
use cti::crc32_table;
use cti::read_header;
use cti::read_indices;
use cti::read_u16_le;
use cti::read_u32_le;
use cti::read_u64_le;
use cti::read_u8;
use cti::rct_inverse_rgb16;
use cti::rct_inverse_rgb8;
use cti::CompressionId;
use cti::CtiError;

#[test]
fn crc32_known_check_value() {
    assert_eq!(crc32(b"123456789"), 0xCBF43926);
}

#[test]
fn crc32_empty_is_zero() {
    assert_eq!(crc32(b""), 0);
}

#[test]
fn crc32_table_known_entries() {
    let t = crc32_table();
    assert_eq!(t.len(), 256);
    assert_eq!(t[0], 0x0000_0000);
    assert_eq!(t[1], 0x7707_3096);
    assert_eq!(t[255], 0x2D02_EF8D);
}

#[test]
fn crc32_single_bit_flip_changes_checksum() {
    let data = vec![1u8, 2, 3, 4, 5, 6, 7, 8];
    let base = crc32(&data);
    for i in 0..data.len() {
        for bit in 0..8 {
            let mut flipped = data.clone();
            flipped[i] ^= 1u8 << bit;
            assert_ne!(crc32(&flipped), base, "flip at byte {i} bit {bit}");
        }
    }
}

#[test]
fn read_u8_and_bounds() {
    let b = [0xABu8, 0xCD];
    assert_eq!(read_u8(&b, 1), Ok(0xCD));
    assert_eq!(read_u8(&b, 2), Err(CtiError::IOError));
}

#[test]
fn read_u16_le_order() {
    let b = [0x34u8, 0x12, 0xFF];
    assert_eq!(read_u16_le(&b, 0), Ok(0x1234));
    assert_eq!(read_u16_le(&b, 2), Err(CtiError::IOError));
}

#[test]
fn read_u32_le_order() {
    let b = [0x78u8, 0x56, 0x34, 0x12];
    assert_eq!(read_u32_le(&b, 0), Ok(0x1234_5678));
    assert_eq!(read_u32_le(&b, 1), Err(CtiError::IOError));
}

#[test]
fn read_u64_le_order() {
    let b = [1u8, 0, 0, 0, 0, 0, 0, 0x80];
    assert_eq!(read_u64_le(&b, 0), Ok(0x8000_0000_0000_0001));
    assert_eq!(read_u64_le(&b, 1), Err(CtiError::IOError));
}

#[test]
fn read_header_parses_fields() {
    let mut b: Vec<u8> = Vec::new();
    b.extend_from_slice(b"CTI1");
    b.extend_from_slice(&7u16.to_le_bytes());
    b.extend_from_slice(&1u16.to_le_bytes());
    b.extend_from_slice(&640u32.to_le_bytes());
    b.extend_from_slice(&480u32.to_le_bytes());
    b.extend_from_slice(&64u32.to_le_bytes());
    b.extend_from_slice(&10u32.to_le_bytes());
    b.extend_from_slice(&8u32.to_le_bytes());
    b.push(3);
    b.push(10);
    b.push(90);
    b.extend_from_slice(&[0x5Au8; 33]);
    let h = read_header(&b).unwrap();
    assert_eq!(&h.magic, b"CTI1");
    assert_eq!(h.version, 7);
    assert_eq!(h.flags, 1);
    assert_eq!(h.width, 640);
    assert_eq!(h.height, 480);
    assert_eq!(h.tile_size, 64);
    assert_eq!(h.tiles_x, 10);
    assert_eq!(h.tiles_y, 8);
    assert_eq!(h.color_type, 3);
    assert_eq!(h.compression, 10);
    assert_eq!(h.quality, 90);
}

#[test]
fn read_header_truncated_fails() {
    let b = [0u8; 63];
    assert!(matches!(read_header(&b), Err(CtiError::IOError)));
}

#[test]
fn read_indices_parses_records() {
    let mut b: Vec<u8> = vec![0xEE; 5];
    b.extend_from_slice(&300u64.to_le_bytes());
    b.extend_from_slice(&11u32.to_le_bytes());
    b.extend_from_slice(&22u32.to_le_bytes());
    b.extend_from_slice(&33u32.to_le_bytes());
    b.extend_from_slice(&400u64.to_le_bytes());
    b.extend_from_slice(&44u32.to_le_bytes());
    b.extend_from_slice(&55u32.to_le_bytes());
    b.extend_from_slice(&66u32.to_le_bytes());
    let v = read_indices(&b, 5, 2).unwrap();
    assert_eq!(v.len(), 2);
    assert_eq!(v[0].offset, 300);
    assert_eq!(v[0].compressed_size, 11);
    assert_eq!(v[0].original_size, 22);
    assert_eq!(v[0].crc32, 33);
    assert_eq!(v[1].offset, 400);
    assert_eq!(v[1].compressed_size, 44);
    assert_eq!(v[1].original_size, 55);
    assert_eq!(v[1].crc32, 66);
    assert!(matches!(read_indices(&b, 5, 3), Err(CtiError::IOError)));
}

#[test]
fn compression_id_names() {
    assert_eq!(CompressionId::from(0).as_str(), "None");
    assert_eq!(CompressionId::from(1).as_str(), "RLE");
    assert_eq!(CompressionId::from(2).as_str(), "LZ77");
    assert_eq!(CompressionId::from(3).as_str(), "Delta");
    assert_eq!(CompressionId::from(4).as_str(), "Predictive");
    assert_eq!(CompressionId::from(10).as_str(), "Zstd");
    assert_eq!(CompressionId::from(11).as_str(), "LZ4");
    assert_eq!(CompressionId::from(99).as_str(), "Unknown");
}

#[test]
fn compression_id_describe() {
    assert_eq!(CompressionId::from(0).describe(), "None");
    assert_eq!(CompressionId::from(10).describe(), "Zstd");
    assert_eq!(CompressionId::from(7).describe(), "Unknown(7)");
    assert_eq!(CompressionId::from(42).describe(), "Unknown(42)");
    assert_eq!(CompressionId::from(99).describe(), "Unknown(99)");
    assert_eq!(CompressionId::from(255).describe(), "Unknown(255)");
    assert_eq!(CompressionId::from(105).describe(), "Unknown(105)");
}

#[test]
fn color_names() {
    assert_eq!(color_name(1), "L8");
    assert_eq!(color_name(2), "L16");
    assert_eq!(color_name(3), "RGB8");
    assert_eq!(color_name(4), "RGBA8");
    assert_eq!(color_name(5), "RGB16");
    assert_eq!(color_name(0), "Unknown");
    assert_eq!(color_name(9), "Unknown");
}

#[test]
fn error_messages() {
    assert_eq!(
        CtiError::IOError.message(),
        "I/O error: truncated or unreadable data"
    );
    assert_eq!(CtiError::FormatError.message(), "Format error: malformed data");
    assert_eq!(
        CtiError::UnsupportedColorType(9).message(),
        "Unsupported color type id 9"
    );
    assert_eq!(
        CtiError::UnsupportedCompression(99).message(),
        "Unsupported compression: Unknown(99)"
    );
    assert_eq!(
        CtiError::UnsupportedCompression(1).message(),
        "Unsupported compression: RLE"
    );
    assert_eq!(
        CtiError::IntegrityError.message(),
        "Integrity error: checksum mismatch"
    );
}

#[test]
fn rct8_inverse_plain_pixel() {
    // Stored (Y, Cb, Cr) = (120, 20, -20): g = 120, r = 100, b = 140.
    let mut v = vec![120u8, 20, 0xEC];
    rct_inverse_rgb8(&mut v);
    assert_eq!(v, vec![100, 120, 140]);
}

#[test]
fn rct8_inverse_clamps_high() {
    // Y = 255, Cb = Cr = 127: g = 255 - 63 = 192, r = b = 319, clamped.
    let mut v = vec![255u8, 127, 127];
    rct_inverse_rgb8(&mut v);
    assert_eq!(v, vec![255, 192, 255]);
}

#[test]
fn rct8_inverse_clamps_low() {
    // Y = 0, Cb = Cr = -128: g = 64, r = b = -64, clamped to 0.
    let mut v = vec![0u8, 128, 128];
    rct_inverse_rgb8(&mut v);
    assert_eq!(v, vec![0, 64, 0]);
}

#[test]
fn rct8_inverse_leaves_partial_pixel() {
    let mut v = vec![120u8, 20, 0xEC, 9, 9];
    rct_inverse_rgb8(&mut v);
    assert_eq!(v, vec![100, 120, 140, 9, 9]);
}

#[test]
fn rct8_forward_then_inverse_roundtrip() {
    // Forward transform of in-range pixels, then the library's inverse.
    for &(r, g, b) in &[(100u8, 120u8, 140u8), (0, 0, 0), (255, 255, 255), (10, 20, 30)] {
        let cb = (b as i32) - (g as i32);
        let cr = (r as i32) - (g as i32);
        let y = (g as i32) + ((cb + cr) >> 2);
        let mut v = vec![y as u8, cb as u8, cr as u8];
        rct_inverse_rgb8(&mut v);
        assert_eq!(v, vec![r, g, b]);
    }
}

#[test]
fn rct16_inverse_plain_pixel() {
    // Stored (Y, Cb, Cr) = (30000, 1000, -1000): g = 30000, r = 29000, b = 31000.
    let mut v = Vec::new();
    v.extend_from_slice(&30000u16.to_le_bytes());
    v.extend_from_slice(&1000u16.to_le_bytes());
    v.extend_from_slice(&(-1000i16 as u16).to_le_bytes());
    rct_inverse_rgb16(&mut v);
    let mut expect = Vec::new();
    expect.extend_from_slice(&29000u16.to_le_bytes());
    expect.extend_from_slice(&30000u16.to_le_bytes());
    expect.extend_from_slice(&31000u16.to_le_bytes());
    assert_eq!(v, expect);
}

#[test]
fn rct16_inverse_clamps() {
    // Y = 65535, Cb = Cr = 32767: g = 65535 - 16383 = 49152, r = b clamped.
    let mut v = Vec::new();
    v.extend_from_slice(&65535u16.to_le_bytes());
    v.extend_from_slice(&32767u16.to_le_bytes());
    v.extend_from_slice(&32767u16.to_le_bytes());
    rct_inverse_rgb16(&mut v);
    let mut expect = Vec::new();
    expect.extend_from_slice(&65535u16.to_le_bytes());
    expect.extend_from_slice(&49152u16.to_le_bytes());
    expect.extend_from_slice(&65535u16.to_le_bytes());
    assert_eq!(v, expect);
}

#[test]
fn blit_tile_copies_clipped_rectangle() {
    // 10x10 image, one byte per pixel; the tile at grid (1, 1) with
    // tile_size 8 contributes only its top-left 2x2 corner.
    let mut out = vec![0u8; 100];
    let mut tile = vec![0u8; 64];
    for (i, t) in tile.iter_mut().enumerate() {
        *t = (i + 1) as u8;
    }
    cti::blit_tile(&mut out, &tile, 10, 10, 8, 1, 1, 1);
    let mut expect = vec![0u8; 100];
    expect[8 * 10 + 8] = tile[0];
    expect[8 * 10 + 9] = tile[1];
    expect[9 * 10 + 8] = tile[8];
    expect[9 * 10 + 9] = tile[9];
    assert_eq!(out, expect);
}
