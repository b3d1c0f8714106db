//! The decoder: metadata probe and full decode over a file's bytes.
//!
//! Full decode parses the header, validates the magic, resolves bytes per
//! pixel from the color type, parses the tile index, and then, tile by
//! tile in index order: takes the payload bytes, decompresses them,
//! verifies the checksum, optionally inverts the color transform, and
//! composites the tile into the output raster. The first failure aborts
//! the whole decode; nothing partial is returned.

use vstd::prelude::*;
use vstd::bytes::spec_u16_from_le_bytes;
use vstd::bytes::spec_u32_from_le_bytes;
use crate::compositor::blit_tile;
use crate::compositor::check_tile_len;
use crate::compositor::raster_index;
use crate::compositor::required_tile_len;
use crate::compositor::spec_clip;
use crate::compositor::tile_index;
use crate::compression::spec_decompress;
use crate::crc::spec_crc32;
use crate::crc::verify_checksum;
use crate::error::CtiError;
use crate::header::CTIHeader;
use crate::header::HEADER_SIZE;
use crate::header::header_matches;
use crate::header::read_header;
use crate::header::spec_magic;
use crate::index::INDEX_RECORD_SIZE;
use crate::index::index_matches;
use crate::index::read_indices;
use crate::spec_bpp_of;
use crate::bpp_of;
use crate::transform::rct16_seq;
use crate::transform::rct8_seq;
use crate::transform::rct_inverse_rgb16;
use crate::transform::rct_inverse_rgb8;

verus! {

/// The flags field the file's bytes encode.
pub open spec fn f_flags(b: Seq<u8>) -> u16 {
    spec_u16_from_le_bytes(b.subrange(6, 8))
}

/// The image width the file's bytes encode.
pub open spec fn f_width(b: Seq<u8>) -> u32 {
    spec_u32_from_le_bytes(b.subrange(8, 12))
}

/// The image height the file's bytes encode.
pub open spec fn f_height(b: Seq<u8>) -> u32 {
    spec_u32_from_le_bytes(b.subrange(12, 16))
}

/// The tile edge length the file's bytes encode.
pub open spec fn f_tile_size(b: Seq<u8>) -> u32 {
    spec_u32_from_le_bytes(b.subrange(16, 20))
}

/// The tile-grid width the file's bytes encode.
pub open spec fn f_tiles_x(b: Seq<u8>) -> u32 {
    spec_u32_from_le_bytes(b.subrange(20, 24))
}

/// The tile-grid height the file's bytes encode.
pub open spec fn f_tiles_y(b: Seq<u8>) -> u32 {
    spec_u32_from_le_bytes(b.subrange(24, 28))
}

/// The color type identifier the file's bytes encode.
pub open spec fn f_color_type(b: Seq<u8>) -> u8 {
    b[28]
}

/// The compression identifier the file's bytes encode.
pub open spec fn f_compression(b: Seq<u8>) -> u8 {
    b[29]
}

/// The file starts with the expected magic signature.
pub open spec fn magic_ok(b: Seq<u8>) -> bool {
    b.subrange(0, 4) == spec_magic()
}

/// The number of tiles the header declares.
pub open spec fn num_tiles(b: Seq<u8>) -> int {
    f_tiles_x(b) * f_tiles_y(b)
}

/// Byte offset of tile `t`'s index record.
pub open spec fn rec_base(t: int) -> int {
    HEADER_SIZE + t * INDEX_RECORD_SIZE
}

/// Tile `t`'s payload offset from its index record.
pub open spec fn tile_off(b: Seq<u8>, t: int) -> u64 {
    vstd::bytes::spec_u64_from_le_bytes(b.subrange(rec_base(t), rec_base(t) + 8))
}

/// Tile `t`'s compressed length from its index record.
pub open spec fn tile_csize(b: Seq<u8>, t: int) -> u32 {
    spec_u32_from_le_bytes(b.subrange(rec_base(t) + 8, rec_base(t) + 12))
}

/// Tile `t`'s declared decompressed length from its index record.
pub open spec fn tile_osize(b: Seq<u8>, t: int) -> u32 {
    spec_u32_from_le_bytes(b.subrange(rec_base(t) + 12, rec_base(t) + 16))
}

/// Tile `t`'s stored checksum from its index record.
pub open spec fn tile_crc(b: Seq<u8>, t: int) -> u32 {
    spec_u32_from_le_bytes(b.subrange(rec_base(t) + 16, rec_base(t) + 20))
}

/// Tile `t`'s compressed payload bytes.
pub open spec fn tile_payload(b: Seq<u8>, t: int) -> Seq<u8> {
    b.subrange(tile_off(b, t) as int, tile_off(b, t) + tile_csize(b, t))
}

/// What decompressing tile `t` yields.
pub open spec fn tile_decomp(b: Seq<u8>, t: int) -> Result<Seq<u8>, CtiError> {
    spec_decompress(f_compression(b), tile_payload(b, t), tile_osize(b, t) as nat)
}

/// The reversible color transform applies: flag bit 0 set, and an RGB
/// color type.
pub open spec fn spec_use_rct(b: Seq<u8>) -> bool {
    f_flags(b) & 1 == 1 && (f_color_type(b) == 3 || f_color_type(b) == 5)
}

/// Tile `t`'s pixel bytes after decompression and, where it applies, the
/// inverse color transform.
pub open spec fn tile_pixels(b: Seq<u8>, t: int) -> Seq<u8>
    recommends
        tile_decomp(b, t) is Ok,
{
    let d = tile_decomp(b, t)->Ok_0;
    if spec_use_rct(b) {
        if f_color_type(b) == 3 {
            rct8_seq(d)
        } else {
            rct16_seq(d)
        }
    } else {
        d
    }
}

/// Tile `t`'s grid column.
pub open spec fn tile_tx(b: Seq<u8>, t: int) -> int {
    t % (f_tiles_x(b) as int)
}

/// Tile `t`'s grid row.
pub open spec fn tile_ty(b: Seq<u8>, t: int) -> int {
    t / (f_tiles_x(b) as int)
}

/// Pixel (`px`, `py`) lies in tile `t`'s clipped destination rectangle.
pub open spec fn in_region(b: Seq<u8>, t: int, px: int, py: int) -> bool {
    let ts = f_tile_size(b);
    let sx = tile_tx(b, t) * ts;
    let sy = tile_ty(b, t) * ts;
    &&& sx <= px < sx + spec_clip(f_width(b), sx, ts)
    &&& sy <= py < sy + spec_clip(f_height(b), sy, ts)
}

/// The raster holds tile `t`'s pixel bytes throughout its clipped
/// destination rectangle, read from the tile buffer at row stride
/// `tile_size * bpp`.
pub open spec fn region_matches(b: Seq<u8>, t: int, data: Seq<u8>) -> bool {
    let w = f_width(b);
    let ts = f_tile_size(b);
    let bpp = spec_bpp_of(f_color_type(b))->Some_0;
    let sx = tile_tx(b, t) * ts;
    let sy = tile_ty(b, t) * ts;
    forall|y: int, x: int, c: int|
        0 <= y < spec_clip(f_height(b), sy, ts) && 0 <= x < spec_clip(w, sx, ts) && 0 <= c < bpp
            ==> data[raster_index(w, bpp, sx + x, sy + y, c)] == tile_pixels(b, t)[#[trigger] tile_index(
            ts,
            bpp,
            x,
            y,
            c,
        )]
}

/// The first failure tile `t` itself produces, or nothing: a payload past
/// the end of the data, a decompression failure, a checksum mismatch, or
/// a decompressed tile too short for its clipped region.
pub open spec fn tile_error(b: Seq<u8>, t: int) -> Option<CtiError> {
    let ts = f_tile_size(b);
    let bpp = spec_bpp_of(f_color_type(b))->Some_0;
    if tile_off(b, t) + tile_csize(b, t) > b.len() {
        Some(CtiError::IOError)
    } else if tile_decomp(b, t) is Err {
        Some(tile_decomp(b, t)->Err_0)
    } else if spec_crc32(tile_decomp(b, t)->Ok_0) != tile_crc(b, t) {
        Some(CtiError::IntegrityError)
    } else if tile_decomp(b, t)->Ok_0.len() < required_tile_len(
        spec_clip(f_height(b), tile_ty(b, t) * ts, ts),
        spec_clip(f_width(b), tile_tx(b, t) * ts, ts),
        ts,
        bpp,
    ) {
        Some(CtiError::FormatError)
    } else {
        None
    }
}

/// The first failure among tiles `t`, `t + 1`, ... up to `n`, or nothing.
pub open spec fn first_tile_error(b: Seq<u8>, n: int, t: int) -> Option<CtiError>
    decreases n - t,
{
    if t >= n {
        None
    } else if tile_error(b, t) is Some {
        tile_error(b, t)
    } else {
        first_tile_error(b, n, t + 1)
    }
}

/// The failure a full decode of `b` must report, or nothing when it must
/// succeed: a truncated header, a bad magic, an unknown color type, a
/// truncated tile index, an output size beyond this machine, then the
/// first per-tile failure in index order.
pub open spec fn decode_error(b: Seq<u8>) -> Option<CtiError> {
    if b.len() < HEADER_SIZE {
        Some(CtiError::IOError)
    } else if !magic_ok(b) {
        Some(CtiError::FormatError)
    } else if spec_bpp_of(f_color_type(b)) is None {
        Some(CtiError::UnsupportedColorType(f_color_type(b)))
    } else if HEADER_SIZE + num_tiles(b) * INDEX_RECORD_SIZE > b.len() {
        Some(CtiError::IOError)
    } else if f_width(b) * f_height(b) * spec_bpp_of(f_color_type(b))->Some_0 > usize::MAX {
        Some(CtiError::FormatError)
    } else {
        first_tile_error(b, num_tiles(b), 0)
    }
}

/// What a successful full decode of `b` returns: the header's fields, and
/// a raster of exactly width * height * bpp bytes where every tile's
/// clipped rectangle holds that tile's decompressed (and, where the
/// transform applies, inverted) bytes, and every pixel outside the tile
/// grid is zero.
pub open spec fn decode_ok(b: Seq<u8>, h: CTIHeader, data: Seq<u8>) -> bool {
    let w = f_width(b);
    let ht = f_height(b);
    let ts = f_tile_size(b);
    let bpp = spec_bpp_of(f_color_type(b))->Some_0;
    &&& header_matches(h, b)
    &&& magic_ok(b)
    &&& spec_bpp_of(f_color_type(b)) is Some
    &&& data.len() == w * ht * bpp
    &&& forall|t: int| 0 <= t < num_tiles(b) ==> #[trigger] region_matches(b, t, data)
    &&& forall|py: int, px: int, c: int|
        0 <= py < ht && 0 <= px < w && 0 <= c < bpp && (px >= f_tiles_x(b) * ts || py >= f_tiles_y(
            b,
        ) * ts) ==> data[#[trigger] raster_index(w, bpp, px, py, c)] == 0
}

/// Two distinct tiles send no pixel to the same place.
proof fn lemma_regions_disjoint(b: Seq<u8>, t1: int, t2: int, px: int, py: int)
    requires
        0 <= t1 < num_tiles(b),
        0 <= t2 < num_tiles(b),
        t1 != t2,
        in_region(b, t1, px, py),
    ensures
        !in_region(b, t2, px, py),
{
    let ts = f_tile_size(b);
    let gx = f_tiles_x(b) as int;
    if in_region(b, t2, px, py) {
        assert(ts >= 1);
        let tx1 = tile_tx(b, t1);
        let ty1 = tile_ty(b, t1);
        let tx2 = tile_tx(b, t2);
        let ty2 = tile_ty(b, t2);
        assert(tx1 * ts <= px < tx1 * ts + ts && tx2 * ts <= px < tx2 * ts + ts ==> tx1 == tx2)
            by (nonlinear_arith)
            requires
                ts >= 1,
        ;
        assert(ty1 * ts <= py < ty1 * ts + ts && ty2 * ts <= py < ty2 * ts + ts ==> ty1 == ty2)
            by (nonlinear_arith)
            requires
                ts >= 1,
        ;
        assert(gx >= 1) by (nonlinear_arith)
            requires
                0 <= t1 < f_tiles_x(b) as int * f_tiles_y(b) as int,
                gx == f_tiles_x(b) as int,
        ;
        vstd::arithmetic::div_mod::lemma_fundamental_div_mod(t1, gx);
        vstd::arithmetic::div_mod::lemma_fundamental_div_mod(t2, gx);
        assert(t1 == ty1 * gx + tx1);
        assert(t2 == ty2 * gx + tx2);
    }
}

/// No tile's rectangle reaches a pixel outside the tile grid's extent.
proof fn lemma_outside_grid(b: Seq<u8>, t: int, px: int, py: int)
    requires
        0 <= t < num_tiles(b),
        px >= f_tiles_x(b) * f_tile_size(b) || py >= f_tiles_y(b) * f_tile_size(b),
    ensures
        !in_region(b, t, px, py),
{
    let ts = f_tile_size(b);
    let gx = f_tiles_x(b) as int;
    let gy = f_tiles_y(b) as int;
    if in_region(b, t, px, py) {
        assert(gx >= 1 && gy >= 1) by (nonlinear_arith)
            requires
                0 <= t < f_tiles_x(b) as int * f_tiles_y(b) as int,
                gx == f_tiles_x(b) as int,
                gy == f_tiles_y(b) as int,
        ;
        let tx = tile_tx(b, t);
        let ty = tile_ty(b, t);
        assert(0 <= tx < gx) by {
            vstd::arithmetic::div_mod::lemma_mod_division_less_than_divisor(t, gx);
        }
        assert(0 <= ty < gy) by {
            vstd::arithmetic::div_mod::lemma_fundamental_div_mod(t, gx);
            assert(t == gx * (t / gx) + t % gx);
            assert(t / gx < gy) by (nonlinear_arith)
                requires
                    t < gx * gy,
                    t == gx * (t / gx) + t % gx,
                    0 <= t % gx,
                    gx >= 1,
            ;
            assert(t / gx >= 0) by (nonlinear_arith)
                requires
                    t >= 0,
                    t == gx * (t / gx) + t % gx,
                    t % gx < gx,
                    gx >= 1,
            ;
        }
        assert((tx + 1) * ts == tx * ts + ts) by (nonlinear_arith);
        assert((ty + 1) * ts == ty * ts + ts) by (nonlinear_arith);
        assert(px < (tx + 1) * ts);
        assert(py < (ty + 1) * ts);
        assert((tx + 1) * ts <= gx * ts) by (nonlinear_arith)
            requires
                tx + 1 <= gx,
                ts >= 0,
        ;
        assert((ty + 1) * ts <= gy * ts) by (nonlinear_arith)
            requires
                ty + 1 <= gy,
                ts >= 0,
        ;
        assert(false);
    }
}

/// The decoder: a metadata probe and a whole-file decode. Each call is
/// independent; no state is carried between calls.
pub struct CTIDecoder;

impl CTIDecoder {
    /// Reads only the header of a file's bytes, as a fast metadata check.
    /// It never looks past the header, so it succeeds even when the tile
    /// data is absent or corrupt.
    pub fn info(bytes: &[u8]) -> (r: Result<CTIHeader, CtiError>)
        ensures
            bytes@.len() >= HEADER_SIZE ==> (r matches Ok(h) && header_matches(h, bytes@)),
            bytes@.len() < HEADER_SIZE ==> r == Err::<CTIHeader, CtiError>(CtiError::IOError),
    {
        read_header(bytes)
    }

    /// Decodes a whole file's bytes into the header and the raw
    /// interleaved raster buffer.
    pub fn decode_file(bytes: &[u8]) -> (r: Result<(CTIHeader, Vec<u8>), CtiError>)
        ensures
            match r {
                Ok(p) => decode_ok(bytes@, p.0, p.1@) && decode_error(bytes@) is None,
                Err(e) => decode_error(bytes@) == Some(e),
            },
    {
        let ghost b = bytes@;
        let len = bytes.len();
        let hdr = match read_header(bytes) {
            Ok(h) => h,
            Err(e) => {
                return Err(e);
            },
        };
        if !(hdr.magic[0] == 0x43 && hdr.magic[1] == 0x54 && hdr.magic[2] == 0x49 && hdr.magic[3]
            == 0x31) {
            proof {
                assert(hdr.magic@ == b.subrange(0, 4));
                assert(!magic_ok(b)) by {
                    if b.subrange(0, 4) == spec_magic() {
                        assert(hdr.magic@[0] == 0x43 && hdr.magic@[1] == 0x54 && hdr.magic@[2]
                            == 0x49 && hdr.magic@[3] == 0x31);
                    }
                }
            }
            return Err(CtiError::FormatError);
        }
        proof {
            assert(magic_ok(b)) by {
                assert(hdr.magic@ =~= b.subrange(0, 4));
                assert(b.subrange(0, 4) =~= spec_magic());
            }
        }
        let bpp: u32 = match bpp_of(hdr.color_type) {
            Some(v) => v,
            None => {
                return Err(CtiError::UnsupportedColorType(hdr.color_type));
            },
        };
        proof {
            assert((hdr.tiles_x as int) * (hdr.tiles_y as int) < 0x1_0000_0000_0000_0000 as int)
                by (nonlinear_arith)
                requires
                    hdr.tiles_x <= 0xFFFF_FFFFu32,
                    hdr.tiles_y <= 0xFFFF_FFFFu32,
            ;
        }
        let n64: u64 = hdr.tiles_x as u64 * hdr.tiles_y as u64;
        if n64 > (len as u64 - HEADER_SIZE as u64) / INDEX_RECORD_SIZE as u64 {
            proof {
                assert(HEADER_SIZE + num_tiles(b) * INDEX_RECORD_SIZE > b.len())
                    by (nonlinear_arith)
                    requires
                        num_tiles(b) == n64 as int,
                        n64 as int > (b.len() - HEADER_SIZE) / (INDEX_RECORD_SIZE as int),
                        b.len() >= HEADER_SIZE,
                        HEADER_SIZE == 64,
                        INDEX_RECORD_SIZE == 20,
                ;
            }
            return Err(CtiError::IOError);
        }
        proof {
            assert(num_tiles(b) * INDEX_RECORD_SIZE <= b.len() - HEADER_SIZE) by (nonlinear_arith)
                requires
                    num_tiles(b) == n64 as int,
                    n64 as int <= (b.len() - HEADER_SIZE) / (INDEX_RECORD_SIZE as int),
                    b.len() >= HEADER_SIZE,
                    HEADER_SIZE == 64,
                    INDEX_RECORD_SIZE == 20,
            ;
        }
        proof {
            assert((len as int - HEADER_SIZE) / (INDEX_RECORD_SIZE as int) <= len as int)
                by (nonlinear_arith)
                requires
                    len >= HEADER_SIZE,
                    HEADER_SIZE == 64,
                    INDEX_RECORD_SIZE == 20,
            ;
        }
        let n: usize = n64 as usize;
        proof {
            assert(n == num_tiles(b));
            assert(HEADER_SIZE + n * INDEX_RECORD_SIZE <= b.len());
        }
        let indices = match read_indices(bytes, HEADER_SIZE, n) {
            Ok(v) => v,
            Err(_) => {
                // Unreachable: the whole index was just shown to be present.
                proof {
                    assert(false);
                }
                return Err(CtiError::IOError);
            },
        };
        proof {
            assert((hdr.width as int) * (hdr.height as int) < 0x1_0000_0000_0000_0000 as int)
                by (nonlinear_arith)
                requires
                    hdr.width <= 0xFFFF_FFFFu32,
                    hdr.height <= 0xFFFF_FFFFu32,
            ;
        }
        let wh: u64 = hdr.width as u64 * hdr.height as u64;
        proof {
            assert(bpp <= 6);
            assert((wh as int) * (bpp as int) < 0x1_0000_0000_0000_0000_0000_0000 as int)
                by (nonlinear_arith)
                requires
                    wh <= 0xFFFF_FFFF_FFFF_FFFFu64,
                    bpp <= 6,
            ;
        }
        let total: u128 = wh as u128 * bpp as u128;
        if total > usize::MAX as u128 {
            return Err(CtiError::FormatError);
        }
        let mut out: Vec<u8> = vec![0u8; total as usize];
        let w = hdr.width;
        let h = hdr.height;
        let ts = hdr.tile_size;
        proof {
            assert(out@.len() == w * h * bpp) by {
                assert(wh == (w as int) * (h as int));
                assert((wh as int) * (bpp as int) == w * h * bpp) by (nonlinear_arith)
                    requires
                        wh == (w as int) * (h as int),
                ;
            }
            assert forall|py: int, px: int, c: int|
                0 <= py < h && 0 <= px < w && 0 <= c < bpp implies out@[#[trigger] raster_index(
                w,
                bpp,
                px,
                py,
                c,
            )] == 0 by {
                crate::compositor::lemma_raster_index_bound(w, h, bpp, px, py, c);
            }
        }
        let urct: bool = (hdr.flags & 1) != 0 && (hdr.color_type == 3 || hdr.color_type == 5);
        proof {
            let fl = hdr.flags;
            assert(fl & 1 == 1 || fl & 1 == 0) by (bit_vector);
            assert(urct == spec_use_rct(b));
        }
        let mut i: usize = 0;
        while i < n
            invariant
                0 <= i <= n,
                bytes@ == b,
                b.len() == len,
                len >= HEADER_SIZE,
                header_matches(hdr, b),
                magic_ok(b),
                spec_bpp_of(hdr.color_type) == Some(bpp),
                1 <= bpp <= 6,
                w == f_width(b),
                h == f_height(b),
                ts == f_tile_size(b),
                n == num_tiles(b),
                HEADER_SIZE + n * INDEX_RECORD_SIZE <= len,
                w * h * bpp <= usize::MAX,
                urct == spec_use_rct(b),
                indices@.len() == n,
                forall|j: int|
                    0 <= j < n ==> index_matches(
                        #[trigger] indices@[j],
                        b,
                        HEADER_SIZE + j * INDEX_RECORD_SIZE,
                    ),
                out@.len() == w * h * bpp,
                first_tile_error(b, n as int, 0) == first_tile_error(b, n as int, i as int),
                forall|t: int| 0 <= t < i ==> #[trigger] region_matches(b, t, out@),
                forall|py: int, px: int, c: int|
                    0 <= py < h && 0 <= px < w && 0 <= c < bpp && (forall|t: int|
                        0 <= t < i ==> !in_region(b, t, px, py)) ==> out@[#[trigger] raster_index(
                        w,
                        bpp,
                        px,
                        py,
                        c,
                    )] == 0,
            decreases n - i,
        {
            let rec = indices[i];
            proof {
                assert(index_matches(indices@[i as int], b, rec_base(i as int)));
            }
            if rec.offset > len as u64 || rec.compressed_size as u64 > len as u64 - rec.offset {
                proof {
                    assert(tile_error(b, i as int) == Some(CtiError::IOError));
                    lemma_first_error_stops(b, n as int, i as int);
                }
                return Err(CtiError::IOError);
            }
            let start: usize = rec.offset as usize;
            let csize: usize = rec.compressed_size as usize;
            let comp = vstd::slice::slice_subrange(bytes, start, start + csize);
            proof {
                assert(comp@ == tile_payload(b, i as int));
            }
            let mut tile = match crate::compression::decompress_tile_with_size(
                hdr.compression,
                comp,
                rec.original_size as usize,
            ) {
                Ok(v) => v,
                Err(e) => {
                    proof {
                        assert(tile_error(b, i as int) == Some(e));
                        lemma_first_error_stops(b, n as int, i as int);
                    }
                    return Err(e);
                },
            };
            proof {
                assert(tile_decomp(b, i as int) == Ok::<Seq<u8>, CtiError>(tile@));
            }
            match verify_checksum(tile.as_slice(), rec.crc32) {
                Ok(_) => {},
                Err(e) => {
                    proof {
                        assert(tile_error(b, i as int) == Some(CtiError::IntegrityError));
                        lemma_first_error_stops(b, n as int, i as int);
                    }
                    return Err(e);
                },
            }
            proof {
                assert(f_tiles_x(b) as int >= 1) by (nonlinear_arith)
                    requires
                        (i as int) < f_tiles_x(b) as int * f_tiles_y(b) as int,
                        i >= 0,
                ;
            }
            let gx64: u64 = hdr.tiles_x as u64;
            let tx: u32 = (i as u64 % gx64) as u32;
            let ty64: u64 = i as u64 / gx64;
            proof {
                vstd::arithmetic::div_mod::lemma_fundamental_div_mod(i as int, gx64 as int);
                assert((ty64 as int) < f_tiles_y(b) as int) by (nonlinear_arith)
                    requires
                        (i as int) < f_tiles_x(b) as int * f_tiles_y(b) as int,
                        i as int == (gx64 as int) * (ty64 as int) + (i as int) % (gx64 as int),
                        0 <= (i as int) % (gx64 as int),
                        gx64 as int == f_tiles_x(b) as int,
                        gx64 >= 1,
                        ty64 as int == (i as int) / (gx64 as int),
                ;
            }
            let ty: u32 = ty64 as u32;
            proof {
                assert(tx as int == tile_tx(b, i as int));
                assert(ty as int == tile_ty(b, i as int));
            }
            match check_tile_len(tile.len(), w, h, ts, bpp, tx, ty) {
                Ok(_) => {},
                Err(e) => {
                    proof {
                        assert(tile_error(b, i as int) == Some(CtiError::FormatError));
                        lemma_first_error_stops(b, n as int, i as int);
                    }
                    return Err(e);
                },
            }
            proof {
                assert(tile_error(b, i as int) is None);
            }
            if urct {
                if hdr.color_type == 3 {
                    rct_inverse_rgb8(&mut tile);
                } else {
                    rct_inverse_rgb16(&mut tile);
                }
            }
            proof {
                assert(tile@ == tile_pixels(b, i as int));
                assert(tile@.len() >= required_tile_len(
                    spec_clip(h, ty as int * ts, ts),
                    spec_clip(w, tx as int * ts, ts),
                    ts,
                    bpp,
                ));
            }
            let ghost prev = out@;
            blit_tile(&mut out, tile.as_slice(), w, h, ts, bpp, tx, ty);
            proof {
                let ti = i as int;
                let sx = tile_tx(b, ti) * ts;
                let sy = tile_ty(b, ti) * ts;
                // This tile's rectangle now matches.
                assert(region_matches(b, ti, out@));
                // Earlier tiles' rectangles are untouched: their pixels lie
                // outside this tile's rectangle.
                assert forall|t: int| 0 <= t < ti + 1 implies #[trigger] region_matches(
                    b,
                    t,
                    out@,
                ) by {
                    if t < ti {
                        assert(region_matches(b, t, prev));
                        let stx = tile_tx(b, t) * ts;
                        let sty = tile_ty(b, t) * ts;
                        assert forall|y: int, x: int, c: int|
                            0 <= y < spec_clip(h, sty, ts) && 0 <= x < spec_clip(w, stx, ts) && 0
                                <= c < bpp implies out@[raster_index(w, bpp, stx + x, sty + y, c)]
                            == tile_pixels(b, t)[#[trigger] tile_index(ts, bpp, x, y, c)] by {
                            assert(in_region(b, t, stx + x, sty + y));
                            lemma_regions_disjoint(b, t, ti, stx + x, sty + y);
                            assert(0 <= stx + x < w && 0 <= sty + y < h);
                            assert(out@[raster_index(w, bpp, stx + x, sty + y, c)] == prev[
                            raster_index(w, bpp, stx + x, sty + y, c)]);
                        }
                    }
                }
                // Pixels covered by no tile so far stay zero.
                assert forall|py: int, px: int, c: int|
                    0 <= py < h && 0 <= px < w && 0 <= c < bpp && (forall|t: int|
                        0 <= t < ti + 1 ==> !in_region(b, t, px, py)) implies out@[#[trigger] raster_index(
                    w,
                    bpp,
                    px,
                    py,
                    c,
                )] == 0 by {
                    assert(!in_region(b, ti, px, py));
                    assert(out@[raster_index(w, bpp, px, py, c)] == prev[raster_index(
                        w,
                        bpp,
                        px,
                        py,
                        c,
                    )]);
                    assert(forall|t: int| 0 <= t < ti ==> !in_region(b, t, px, py));
                }
                lemma_first_error_continues(b, n as int, i as int);
            }
            i = i + 1;
        }
        proof {
            assert(first_tile_error(b, n as int, n as int) is None);
            assert(decode_error(b) is None);
            // Pixels beyond the tile grid lie in no tile's rectangle.
            assert forall|py: int, px: int, c: int|
                0 <= py < h && 0 <= px < w && 0 <= c < bpp && (px >= f_tiles_x(b) * ts || py
                    >= f_tiles_y(b) * ts) implies out@[#[trigger] raster_index(w, bpp, px, py, c)]
                == 0 by {
                assert forall|t: int| 0 <= t < n implies !in_region(b, t, px, py) by {
                    lemma_outside_grid(b, t, px, py);
                }
            }
            assert(decode_ok(b, hdr, out@));
        }
        Ok((hdr, out))
    }
}

/// Below a clean prefix of tiles, every tile of the prefix is clean.
proof fn lemma_first_none_from(b: Seq<u8>, n: int, i: int, t: int)
    requires
        first_tile_error(b, n, i) is None,
        i <= t < n,
    ensures
        tile_error(b, t) is None,
    decreases t - i,
{
    if i < t {
        lemma_first_none_from(b, n, i + 1, t);
    }
}

/// Lossless round trip: in a file whose compression mode is `None` and
/// whose transform flag is clear, a successful decode reproduces each
/// tile's stored payload bytes exactly, byte for byte, at its clipped
/// place in the raster.
pub proof fn lemma_none_roundtrip(b: Seq<u8>, h: CTIHeader, data: Seq<u8>, t: int, y: int, x: int, c: int)
    requires
        decode_ok(b, h, data),
        decode_error(b) is None,
        f_compression(b) == 0,
        f_flags(b) & 1 == 0,
        0 <= t < num_tiles(b),
        0 <= y < spec_clip(f_height(b), tile_ty(b, t) * f_tile_size(b), f_tile_size(b)),
        0 <= x < spec_clip(f_width(b), tile_tx(b, t) * f_tile_size(b), f_tile_size(b)),
        0 <= c < spec_bpp_of(f_color_type(b))->Some_0,
    ensures
        ({
            let ts = f_tile_size(b);
            let bpp = spec_bpp_of(f_color_type(b))->Some_0;
            data[raster_index(
                f_width(b),
                bpp,
                tile_tx(b, t) * ts + x,
                tile_ty(b, t) * ts + y,
                c,
            )] == b[tile_off(b, t) + tile_index(ts, bpp, x, y, c)]
        }),
{
    let ts = f_tile_size(b);
    let bpp = spec_bpp_of(f_color_type(b))->Some_0;
    lemma_first_none_from(b, num_tiles(b), 0, t);
    assert(tile_error(b, t) is None);
    assert(tile_decomp(b, t) == Ok::<Seq<u8>, CtiError>(tile_payload(b, t)));
    assert(!spec_use_rct(b));
    assert(tile_pixels(b, t) == tile_payload(b, t));
    assert(region_matches(b, t, data));
    let sx = tile_tx(b, t) * ts;
    let sy = tile_ty(b, t) * ts;
    assert(data[raster_index(f_width(b), bpp, sx + x, sy + y, c)] == tile_payload(b, t)[tile_index(
        ts,
        bpp,
        x,
        y,
        c,
    )]);
    crate::compositor::lemma_tile_index_bound(
        ts,
        bpp,
        spec_clip(f_height(b), sy, ts),
        spec_clip(f_width(b), sx, ts),
        x,
        y,
        c,
    );
    assert(tile_index(ts, bpp, x, y, c) < tile_payload(b, t).len());
}

/// A failing tile makes the first error from its position on.
proof fn lemma_first_error_stops(b: Seq<u8>, n: int, t: int)
    requires
        0 <= t < n,
        tile_error(b, t) is Some,
    ensures
        first_tile_error(b, n, t) == tile_error(b, t),
{
}

/// A clean tile passes the first error on to the tiles after it.
proof fn lemma_first_error_continues(b: Seq<u8>, n: int, t: int)
    requires
        0 <= t < n,
        tile_error(b, t) is None,
    ensures
        first_tile_error(b, n, t) == first_tile_error(b, n, t + 1),
{
}

} // verus!
