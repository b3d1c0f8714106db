//! The fixed-layout file header and the little-endian field readers.
//!
//! All multi-byte integers are little-endian. The header is 64 bytes:
//! a 4-byte magic signature, version and flags (u16 each), width, height,
//! tile size and the two tile-grid counts (u32 each), the color type,
//! compression and quality bytes, and 33 reserved bytes that are read and
//! discarded, never assumed zero.

use vstd::prelude::*;
use vstd::bytes::spec_u16_from_le_bytes;
use vstd::bytes::spec_u32_from_le_bytes;
use vstd::bytes::spec_u64_from_le_bytes;
use vstd::bytes::u16_from_le_bytes;
use vstd::bytes::u32_from_le_bytes;
use vstd::bytes::u64_from_le_bytes;
use vstd::slice::slice_subrange;
use crate::error::CtiError;

verus! {

/// Total size of the fixed file header in bytes.
pub const HEADER_SIZE: usize = 64;

/// The parsed fixed-layout file header.
#[derive(Clone, Copy, Debug)]
pub struct CTIHeader {
    pub magic: [u8; 4],
    pub version: u16,
    pub flags: u16,
    pub width: u32,
    pub height: u32,
    pub tile_size: u32,
    pub tiles_x: u32,
    pub tiles_y: u32,
    pub color_type: u8,
    pub compression: u8,
    pub quality: u8,
}

/// The magic signature every CTI file must start with: "CTI1".
pub open spec fn spec_magic() -> Seq<u8> {
    seq![0x43u8, 0x54u8, 0x49u8, 0x31u8]
}

/// The header `h` holds exactly the fields the first `HEADER_SIZE` bytes
/// of `b` encode.
pub open spec fn header_matches(h: CTIHeader, b: Seq<u8>) -> bool {
    &&& h.magic@ == b.subrange(0, 4)
    &&& h.version == spec_u16_from_le_bytes(b.subrange(4, 6))
    &&& h.flags == spec_u16_from_le_bytes(b.subrange(6, 8))
    &&& h.width == spec_u32_from_le_bytes(b.subrange(8, 12))
    &&& h.height == spec_u32_from_le_bytes(b.subrange(12, 16))
    &&& h.tile_size == spec_u32_from_le_bytes(b.subrange(16, 20))
    &&& h.tiles_x == spec_u32_from_le_bytes(b.subrange(20, 24))
    &&& h.tiles_y == spec_u32_from_le_bytes(b.subrange(24, 28))
    &&& h.color_type == b[28]
    &&& h.compression == b[29]
    &&& h.quality == b[30]
}

/// The byte at `pos`, or an I/O failure when the data ends before it.
pub fn read_u8(bytes: &[u8], pos: usize) -> (r: Result<u8, CtiError>)
    ensures
        pos + 1 <= bytes@.len() ==> r == Ok::<u8, CtiError>(bytes@[pos as int]),
        pos + 1 > bytes@.len() ==> r == Err::<u8, CtiError>(CtiError::IOError),
{
    if pos < bytes.len() {
        Ok(*vstd::slice::slice_index_get(bytes, pos))
    } else {
        Err(CtiError::IOError)
    }
}

/// The little-endian u16 at `pos`, or an I/O failure when the data ends
/// before its last byte.
pub fn read_u16_le(bytes: &[u8], pos: usize) -> (r: Result<u16, CtiError>)
    ensures
        pos + 2 <= bytes@.len() ==> r == Ok::<u16, CtiError>(
            spec_u16_from_le_bytes(bytes@.subrange(pos as int, pos + 2)),
        ),
        pos + 2 > bytes@.len() ==> r == Err::<u16, CtiError>(CtiError::IOError),
{
    if pos <= bytes.len() && bytes.len() - pos >= 2 {
        Ok(u16_from_le_bytes(slice_subrange(bytes, pos, pos + 2)))
    } else {
        Err(CtiError::IOError)
    }
}

/// The little-endian u32 at `pos`, or an I/O failure when the data ends
/// before its last byte.
pub fn read_u32_le(bytes: &[u8], pos: usize) -> (r: Result<u32, CtiError>)
    ensures
        pos + 4 <= bytes@.len() ==> r == Ok::<u32, CtiError>(
            spec_u32_from_le_bytes(bytes@.subrange(pos as int, pos + 4)),
        ),
        pos + 4 > bytes@.len() ==> r == Err::<u32, CtiError>(CtiError::IOError),
{
    if pos <= bytes.len() && bytes.len() - pos >= 4 {
        Ok(u32_from_le_bytes(slice_subrange(bytes, pos, pos + 4)))
    } else {
        Err(CtiError::IOError)
    }
}

/// The little-endian u64 at `pos`, or an I/O failure when the data ends
/// before its last byte.
pub fn read_u64_le(bytes: &[u8], pos: usize) -> (r: Result<u64, CtiError>)
    ensures
        pos + 8 <= bytes@.len() ==> r == Ok::<u64, CtiError>(
            spec_u64_from_le_bytes(bytes@.subrange(pos as int, pos + 8)),
        ),
        pos + 8 > bytes@.len() ==> r == Err::<u64, CtiError>(CtiError::IOError),
{
    if pos <= bytes.len() && bytes.len() - pos >= 8 {
        Ok(u64_from_le_bytes(slice_subrange(bytes, pos, pos + 8)))
    } else {
        Err(CtiError::IOError)
    }
}

/// Parses the fixed header at the start of `bytes`, consuming the reserved
/// padding. Succeeds exactly when the data holds the full header; it does
/// not itself validate the magic or the color type, so it can serve as a
/// pure metadata probe on an otherwise invalid file.
pub fn read_header(bytes: &[u8]) -> (r: Result<CTIHeader, CtiError>)
    ensures
        bytes@.len() >= HEADER_SIZE ==> (r matches Ok(h) && header_matches(h, bytes@)),
        bytes@.len() < HEADER_SIZE ==> r == Err::<CTIHeader, CtiError>(CtiError::IOError),
{
    if bytes.len() < HEADER_SIZE {
        return Err(CtiError::IOError);
    }
    let magic_slice = slice_subrange(bytes, 0, 4);
    let magic: [u8; 4] = [magic_slice[0], magic_slice[1], magic_slice[2], magic_slice[3]];
    let version = match read_u16_le(bytes, 4) {
        Ok(v) => v,
        Err(e) => return Err(e),
    };
    let flags = match read_u16_le(bytes, 6) {
        Ok(v) => v,
        Err(e) => return Err(e),
    };
    let width = match read_u32_le(bytes, 8) {
        Ok(v) => v,
        Err(e) => return Err(e),
    };
    let height = match read_u32_le(bytes, 12) {
        Ok(v) => v,
        Err(e) => return Err(e),
    };
    let tile_size = match read_u32_le(bytes, 16) {
        Ok(v) => v,
        Err(e) => return Err(e),
    };
    let tiles_x = match read_u32_le(bytes, 20) {
        Ok(v) => v,
        Err(e) => return Err(e),
    };
    let tiles_y = match read_u32_le(bytes, 24) {
        Ok(v) => v,
        Err(e) => return Err(e),
    };
    let color_type = match read_u8(bytes, 28) {
        Ok(v) => v,
        Err(e) => return Err(e),
    };
    let compression = match read_u8(bytes, 29) {
        Ok(v) => v,
        Err(e) => return Err(e),
    };
    let quality = match read_u8(bytes, 30) {
        Ok(v) => v,
        Err(e) => return Err(e),
    };
    // The 33 reserved bytes at offsets 31..64 are forward-compatibility
    // padding: present in every valid header, read past, never interpreted.
    let hdr = CTIHeader {
        magic,
        version,
        flags,
        width,
        height,
        tile_size,
        tiles_x,
        tiles_y,
        color_type,
        compression,
        quality,
    };
    proof {
        assert(hdr.magic@ =~= bytes@.subrange(0, 4));
    }
    Ok(hdr)
}

/// The characters of each color type's name.
pub open spec fn spec_color_name(id: u8) -> Seq<char> {
    if id == 1 {
        "L8"@
    } else if id == 2 {
        "L16"@
    } else if id == 3 {
        "RGB8"@
    } else if id == 4 {
        "RGBA8"@
    } else if id == 5 {
        "RGB16"@
    } else {
        "Unknown"@
    }
}

/// The name of a color type identifier.
pub fn color_name(id: u8) -> (r: &'static str)
    ensures
        r@ == spec_color_name(id),
{
    match id {
        1 => "L8",
        2 => "L16",
        3 => "RGB8",
        4 => "RGBA8",
        5 => "RGB16",
        _ => "Unknown",
    }
}

} // verus!
