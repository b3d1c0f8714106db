//! Decoder for CTI, a tiled, compressed raster-image container format.
//!
//! A CTI file holds a fixed little-endian header, a contiguous array of
//! per-tile index records, and one independently compressed, checksummed
//! payload per tile. Decoding parses the header and index, decompresses
//! each tile, verifies its checksum, optionally inverts a reversible
//! color transform, and composites the tile into the output raster.

pub mod compositor;
pub mod compression;
pub mod crc;
pub mod decoder;
pub mod error;
pub mod header;
pub mod index;
pub mod transform;

pub use compositor::blit_tile;
pub use compression::CompressionId;
pub use crc::crc32;
pub use crc::crc32_table;
pub use decoder::CTIDecoder;
pub use error::CtiError;
pub use header::CTIHeader;
pub use header::color_name;
pub use header::read_header;
pub use header::read_u16_le;
pub use header::read_u32_le;
pub use header::read_u64_le;
pub use header::read_u8;
pub use index::TileIndex;
pub use index::read_indices;
pub use transform::rct_inverse_rgb16;
pub use transform::rct_inverse_rgb8;

use vstd::prelude::*;

verus! {

/// Number of bytes one pixel occupies for a given color type identifier,
/// or `None` for an identifier outside the known set.
pub open spec fn spec_bpp_of(color_type: u8) -> Option<u32> {
    if color_type == 1 {
        Some(1u32)
    } else if color_type == 2 {
        Some(2u32)
    } else if color_type == 3 {
        Some(3u32)
    } else if color_type == 4 {
        Some(4u32)
    } else if color_type == 5 {
        Some(6u32)
    } else {
        None
    }
}

/// Bytes per pixel for a color type identifier; unknown identifiers
/// have no pixel width and are rejected by the decoder.
pub fn bpp_of(color_type: u8) -> (r: Option<u32>)
    ensures
        r == spec_bpp_of(color_type),
{
    match color_type {
        1 => Some(1u32),
        2 => Some(2u32),
        3 => Some(3u32),
        4 => Some(4u32),
        5 => Some(6u32),
        _ => None,
    }
}

} // verus!
