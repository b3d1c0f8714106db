//! Compositing: copying a decoded tile into its sub-rectangle of the
//! output raster.
//!
//! A tile at grid coordinates (tx, ty) lands with its top-left pixel at
//! (tx * tile_size, ty * tile_size). Its effective width and height are
//! clipped independently on each axis at the image boundary, so the last
//! row and column of tiles copy only the part that lies inside the image.
//! The tile's local buffer has a row stride of tile_size * bpp; bytes of
//! the tile beyond the clipped region are never read.

use vstd::prelude::*;
use crate::error::CtiError;

verus! {

/// The clipped extent of a tile on one axis: how much of a span of `ts`
/// pixels starting at `origin` lies inside a dimension of `dim` pixels.
pub open spec fn spec_clip(dim: u32, origin: int, ts: u32) -> int {
    if origin >= dim {
        0
    } else if origin + ts <= dim {
        ts as int
    } else {
        dim - origin
    }
}

/// Byte index of channel `c` of pixel (`px`, `py`) in a raster of width
/// `w` with `bpp` bytes per pixel.
pub open spec fn raster_index(w: u32, bpp: u32, px: int, py: int, c: int) -> int {
    (py * w + px) * bpp + c
}

/// Byte index of channel `c` of local pixel (`x`, `y`) in a tile buffer
/// with row stride `ts * bpp`.
pub open spec fn tile_index(ts: u32, bpp: u32, x: int, y: int, c: int) -> int {
    (y * ts + x) * bpp + c
}

/// The least tile buffer length the compositor may read up to, for a
/// clipped region of `th` rows by `tw` columns.
pub open spec fn required_tile_len(th: int, tw: int, ts: u32, bpp: u32) -> int {
    if th == 0 || tw == 0 {
        0
    } else {
        ((th - 1) * ts + tw) * bpp
    }
}

/// A raster byte index is within a raster of `w` by `h` pixels.
pub(crate) proof fn lemma_raster_index_bound(w: u32, h: u32, bpp: u32, px: int, py: int, c: int)
    requires
        0 <= px < w,
        0 <= py < h,
        0 <= c < bpp,
        bpp >= 1,
    ensures
        0 <= raster_index(w, bpp, px, py, c),
        raster_index(w, bpp, px, py, c) < w * h * bpp,
        (py * w + px) * bpp + bpp <= w * h * bpp,
        py * w <= py * w + px <= (py * w + px) * bpp,
{
    assert(0 <= py * w + px && py * w + px < w * h && (py * w + px) * bpp + bpp <= (w * h) * bpp
        && 0 <= (py * w + px) * bpp + c && (py * w + px) * bpp + c < (w * h) * bpp && (w * h) * bpp
        == w * h * bpp && py * w <= py * w + px && py * w + px <= (py * w + px) * bpp)
        by (nonlinear_arith)
        requires
            0 <= px < w,
            0 <= py < h,
            0 <= c < bpp,
            bpp >= 1,
    ;
}

/// A tile byte index stays under the required tile length.
pub(crate) proof fn lemma_tile_index_bound(ts: u32, bpp: u32, th: int, tw: int, x: int, y: int, c: int)
    requires
        0 <= x < tw,
        0 <= y < th,
        0 <= c < bpp,
        tw <= ts,
        bpp >= 1,
    ensures
        0 <= tile_index(ts, bpp, x, y, c),
        (y * ts + x) * bpp + bpp <= required_tile_len(th, tw, ts, bpp),
        y * ts <= y * ts + x <= (y * ts + x) * bpp,
{
    assert(0 <= y * ts + x && (y * ts + x) * bpp + bpp <= (((th - 1) * ts + tw)) * bpp && y * ts
        <= y * ts + x && y * ts + x <= (y * ts + x) * bpp) by (nonlinear_arith)
        requires
            0 <= x < tw,
            0 <= y < th,
            0 <= c < bpp,
            tw <= ts,
            bpp >= 1,
    ;
}

/// Distinct pixels of one raster occupy disjoint byte ranges.
pub(crate) proof fn lemma_pixel_ranges_disjoint(a1: int, a2: int, bpp: u32)
    requires
        a1 != a2,
        bpp >= 1,
    ensures
        a1 * bpp + bpp <= a2 * bpp || a2 * bpp + bpp <= a1 * bpp,
{
    assert(a1 * bpp + bpp <= a2 * bpp || a2 * bpp + bpp <= a1 * bpp) by (nonlinear_arith)
        requires
            a1 != a2,
            bpp >= 1,
    ;
}

/// Distinct pixel coordinates give distinct pixel numbers.
pub(crate) proof fn lemma_pixel_number_injective(w: u32, px1: int, py1: int, px2: int, py2: int)
    requires
        0 <= px1 < w,
        0 <= px2 < w,
        (px1, py1) != (px2, py2),
    ensures
        py1 * w + px1 != py2 * w + px2,
{
    assert(py1 * w + px1 != py2 * w + px2) by (nonlinear_arith)
        requires
            0 <= px1 < w,
            0 <= px2 < w,
            px1 != px2 || py1 != py2,
    ;
}

/// Copies the `bpp` bytes of one pixel from the tile buffer into the
/// raster, leaving every byte outside the destination range unchanged.
fn copy_px(out: &mut Vec<u8>, tile: &[u8], dst_base: usize, src_base: usize, bpp: usize)
    requires
        dst_base + bpp <= old(out)@.len(),
        src_base + bpp <= tile@.len(),
    ensures
        final(out)@.len() == old(out)@.len(),
        forall|c: int| 0 <= c < bpp ==> #[trigger] final(out)@[dst_base + c] == tile@[src_base + c],
        forall|k: int|
            0 <= k < old(out)@.len() && !(dst_base <= k < dst_base + bpp) ==> final(out)@[k] == old(
                out,
            )@[k],
{
    let olen = out.len();
    let tlen = tile.len();
    let mut c: usize = 0;
    while c < bpp
        invariant
            0 <= c <= bpp,
            out@.len() == olen,
            tile@.len() == tlen,
            dst_base + bpp <= out@.len(),
            src_base + bpp <= tile@.len(),
            out@.len() == old(out)@.len(),
            forall|i: int| 0 <= i < c ==> #[trigger] out@[dst_base + i] == tile@[src_base + i],
            forall|k: int|
                0 <= k < out@.len() && !(dst_base <= k < dst_base + c) ==> out@[k] == old(out)@[k],
        decreases bpp - c,
    {
        let b = *vstd::slice::slice_index_get(tile, src_base + c);
        out[dst_base + c] = b;
        c = c + 1;
    }
}

/// Copies the clipped sub-rectangle of a tile's buffer into the raster.
///
/// Pixels of the region get the tile's bytes, row stride `ts * bpp`; every
/// other pixel of the raster is left untouched. Rows and columns of the
/// tile that fall outside the image are never copied.
pub fn blit_tile(out: &mut Vec<u8>, tile: &[u8], w: u32, h: u32, ts: u32, bpp: u32, tx: u32, ty: u32)
    requires
        old(out)@.len() == w * h * bpp,
        bpp >= 1,
        tile@.len() >= required_tile_len(
            spec_clip(h, ty * ts, ts),
            spec_clip(w, tx * ts, ts),
            ts,
            bpp,
        ),
    ensures
        final(out)@.len() == old(out)@.len(),
        forall|y: int, x: int, c: int|
            0 <= y < spec_clip(h, ty * ts, ts) && 0 <= x < spec_clip(w, tx * ts, ts) && 0 <= c < bpp
                ==> final(out)@[raster_index(w, bpp, tx * ts + x, ty * ts + y, c)] == tile@[
                tile_index(ts, bpp, x, y, c)
            ],
        forall|py: int, px: int, c: int|
            0 <= py < h && 0 <= px < w && 0 <= c < bpp && !(tx * ts <= px < tx * ts + spec_clip(
                w,
                tx * ts,
                ts,
            ) && ty * ts <= py < ty * ts + spec_clip(h, ty * ts, ts)) ==> final(out)@[raster_index(
                w,
                bpp,
                px,
                py,
                c,
            )] == old(out)@[raster_index(w, bpp, px, py, c)],
{
    proof {
        assert((tx as int) * (ts as int) < 0x1_0000_0000_0000_0000 as int) by (nonlinear_arith)
            requires
                tx <= 0xFFFF_FFFFu32,
                ts <= 0xFFFF_FFFFu32,
        ;
        assert((ty as int) * (ts as int) < 0x1_0000_0000_0000_0000 as int) by (nonlinear_arith)
            requires
                ty <= 0xFFFF_FFFFu32,
                ts <= 0xFFFF_FFFFu32,
        ;
    }
    let sx: u64 = tx as u64 * ts as u64;
    let sy: u64 = ty as u64 * ts as u64;
    let w64: u64 = w as u64;
    let h64: u64 = h as u64;
    let ts64: u64 = ts as u64;
    let bpp64: u64 = bpp as u64;
    let tw: u64 = if sx >= w64 {
        0
    } else if ts64 <= w64 - sx {
        ts64
    } else {
        w64 - sx
    };
    let th: u64 = if sy >= h64 {
        0
    } else if ts64 <= h64 - sy {
        ts64
    } else {
        h64 - sy
    };
    proof {
        assert(tw == spec_clip(w, tx * ts, ts));
        assert(th == spec_clip(h, ty * ts, ts));
    }
    let len = out.len();
    let tlen = tile.len();
    let mut y: u64 = 0;
    while y < th
        invariant
            0 <= y <= th,
            out@.len() == len,
            len == w * h * bpp,
            bpp64 == bpp,
            bpp >= 1,
            w64 == w,
            h64 == h,
            ts64 == ts,
            sx == tx * ts,
            sy == ty * ts,
            tw == spec_clip(w, tx * ts, ts),
            th == spec_clip(h, ty * ts, ts),
            tile@.len() == tlen,
            tile@.len() >= required_tile_len(th as int, tw as int, ts, bpp),
            forall|y2: int, x2: int, c: int|
                0 <= y2 < y && 0 <= x2 < tw && 0 <= c < bpp ==> out@[raster_index(
                    w,
                    bpp,
                    sx + x2,
                    sy + y2,
                    c,
                )] == tile@[tile_index(ts, bpp, x2, y2, c)],
            forall|py: int, px: int, c: int|
                0 <= py < h && 0 <= px < w && 0 <= c < bpp && !(sx <= px < sx + tw && sy <= py < sy
                    + y) ==> out@[raster_index(w, bpp, px, py, c)] == old(out)@[raster_index(
                    w,
                    bpp,
                    px,
                    py,
                    c,
                )],
        decreases th - y,
    {
        let mut x: u64 = 0;
        while x < tw
            invariant
                0 <= y < th,
                0 <= x <= tw,
                out@.len() == len,
                len == w * h * bpp,
                bpp64 == bpp,
                bpp >= 1,
                w64 == w,
                h64 == h,
                ts64 == ts,
                sx == tx * ts,
                sy == ty * ts,
                tw == spec_clip(w, tx * ts, ts),
                th == spec_clip(h, ty * ts, ts),
                tile@.len() == tlen,
                tile@.len() >= required_tile_len(th as int, tw as int, ts, bpp),
                forall|y2: int, x2: int, c: int|
                    0 <= y2 < y && 0 <= x2 < tw && 0 <= c < bpp ==> out@[raster_index(
                        w,
                        bpp,
                        sx + x2,
                        sy + y2,
                        c,
                    )] == tile@[tile_index(ts, bpp, x2, y2, c)],
                forall|x2: int, c: int|
                    0 <= x2 < x && 0 <= c < bpp ==> out@[raster_index(w, bpp, sx + x2, sy + y, c)]
                        == tile@[tile_index(ts, bpp, x2, y as int, c)],
                forall|py: int, px: int, c: int|
                    0 <= py < h && 0 <= px < w && 0 <= c < bpp && !(sx <= px < sx + tw && sy <= py
                        < sy + y) && !(py == sy + y && sx <= px < sx + x) ==> out@[raster_index(
                        w,
                        bpp,
                        px,
                        py,
                        c,
                    )] == old(out)@[raster_index(w, bpp, px, py, c)],
            decreases tw - x,
        {
            proof {
                lemma_raster_index_bound(w, h, bpp, sx + x, sy + y, 0);
                lemma_tile_index_bound(ts, bpp, th as int, tw as int, x as int, y as int, 0);
            }
            let dst_base: u64 = ((sy + y) * w64 + (sx + x)) * bpp64;
            let src_base: u64 = (y * ts64 + x) * bpp64;
            let ghost prev = out@;
            copy_px(out, tile, dst_base as usize, src_base as usize, bpp as usize);
            proof {
                let a_new = (sy + y as int) * w + (sx + x as int);
                let nx = sx + x as int;
                let ny = sy + y as int;
                // Bytes of every other pixel lie outside the written range.
                assert forall|py: int, px: int, c: int|
                    0 <= py < h && 0 <= px < w && 0 <= c < bpp && !(px == nx && py == ny)
                    implies out@[raster_index(w, bpp, px, py, c)] == prev[raster_index(
                    w,
                    bpp,
                    px,
                    py,
                    c,
                )] by {
                    let a_other = py * w + px;
                    lemma_pixel_number_injective(w, px, py, nx, ny);
                    lemma_pixel_ranges_disjoint(a_other, a_new, bpp);
                    lemma_raster_index_bound(w, h, bpp, px, py, c);
                    assert(a_other * bpp <= raster_index(w, bpp, px, py, c) < a_other * bpp + bpp)
                        by (nonlinear_arith)
                        requires
                            0 <= c < bpp,
                            a_other == py * w + px,
                    ;
                }
                // The written pixel now carries the tile's bytes.
                assert forall|c: int| 0 <= c < bpp implies out@[raster_index(w, bpp, nx, ny, c)]
                    == tile@[tile_index(ts, bpp, x as int, y as int, c)] by {
                    assert(raster_index(w, bpp, nx, ny, c) == dst_base + c);
                    assert(tile_index(ts, bpp, x as int, y as int, c) == src_base + c);
                }
                // Finished rows keep their bytes.
                assert forall|y2: int, x2: int, c: int|
                    0 <= y2 < y && 0 <= x2 < tw && 0 <= c < bpp implies out@[raster_index(
                    w,
                    bpp,
                    sx + x2,
                    sy + y2,
                    c,
                )] == tile@[tile_index(ts, bpp, x2, y2, c)] by {
                    assert(!(sx + x2 == nx && sy + y2 == ny));
                }
                // The finished prefix of the current row keeps its bytes.
                assert forall|x2: int, c: int| 0 <= x2 < x && 0 <= c < bpp implies out@[
                raster_index(w, bpp, sx + x2, sy + y as int, c)] == tile@[tile_index(
                    ts,
                    bpp,
                    x2,
                    y as int,
                    c,
                )] by {
                    assert(!(sx + x2 == nx && sy + y as int == ny));
                }
                // Everything still uncovered keeps its original bytes.
                assert forall|py: int, px: int, c: int|
                    0 <= py < h && 0 <= px < w && 0 <= c < bpp && !(sx <= px < sx + tw && sy <= py
                        < sy + y) && !(py == sy + y && sx <= px < sx + x + 1) implies out@[
                raster_index(w, bpp, px, py, c)] == old(out)@[raster_index(w, bpp, px, py, c)] by {
                    assert(!(px == nx && py == ny));
                }
            }
            x = x + 1;
        }
        proof {
            // The finished row joins the finished rows.
            assert forall|y2: int, x2: int, c: int|
                0 <= y2 < y + 1 && 0 <= x2 < tw && 0 <= c < bpp implies out@[raster_index(
                w,
                bpp,
                sx + x2,
                sy + y2,
                c,
            )] == tile@[tile_index(ts, bpp, x2, y2, c)] by {
                if y2 == y as int {
                    assert(out@[raster_index(w, bpp, sx + x2, sy + y as int, c)] == tile@[
                    tile_index(ts, bpp, x2, y as int, c)]);
                }
            }
        }
        y = y + 1;
    }
}

/// Fails unless the tile buffer reaches the least length the compositor
/// may read up to for its clipped region; a shorter tile is structurally
/// malformed.
pub fn check_tile_len(tile_len: usize, w: u32, h: u32, ts: u32, bpp: u32, tx: u32, ty: u32) -> (r:
    Result<(), CtiError>)
    ensures
        r is Ok <==> tile_len >= required_tile_len(
            spec_clip(h, ty * ts, ts),
            spec_clip(w, tx * ts, ts),
            ts,
            bpp,
        ),
        r is Err ==> r == Err::<(), CtiError>(CtiError::FormatError),
{
    proof {
        assert((tx as int) * (ts as int) < 0x1_0000_0000_0000_0000 as int) by (nonlinear_arith)
            requires
                tx <= 0xFFFF_FFFFu32,
                ts <= 0xFFFF_FFFFu32,
        ;
        assert((ty as int) * (ts as int) < 0x1_0000_0000_0000_0000 as int) by (nonlinear_arith)
            requires
                ty <= 0xFFFF_FFFFu32,
                ts <= 0xFFFF_FFFFu32,
        ;
    }
    let sx: u64 = tx as u64 * ts as u64;
    let sy: u64 = ty as u64 * ts as u64;
    let w64: u64 = w as u64;
    let h64: u64 = h as u64;
    let ts64: u64 = ts as u64;
    let tw: u64 = if sx >= w64 {
        0
    } else if ts64 <= w64 - sx {
        ts64
    } else {
        w64 - sx
    };
    let th: u64 = if sy >= h64 {
        0
    } else if ts64 <= h64 - sy {
        ts64
    } else {
        h64 - sy
    };
    if th == 0 || tw == 0 {
        return Ok(());
    }
    proof {
        let big = 0xFFFF_FFFF as int;
        assert((th - 1) * ts64 <= big * big && (th - 1) * ts64 + tw <= big * big + big && ((th - 1)
            * ts64 + tw) * bpp <= (big * big + big) * big) by (nonlinear_arith)
            requires
                big == 0xFFFF_FFFF as int,
                1 <= th,
                th <= big + 1,
                ts64 <= big,
                1 <= tw,
                tw <= big,
                bpp <= big,
        ;
    }
    let needed: u128 = ((th - 1) as u128 * ts64 as u128 + tw as u128) * bpp as u128;
    if (tile_len as u128) >= needed {
        Ok(())
    } else {
        Err(CtiError::FormatError)
    }
}

} // verus!
