//! The inverse of the reversible color transform (RCT).
//!
//! Applied in place, per pixel, when the header's flag bit 0 is set and
//! the color type is RGB8 or RGB16. Stored channel order is (Y, Cb, Cr):
//! Y unsigned, Cb and Cr reinterpreted as signed values of the channel's
//! bit width. Per pixel, `g = Y - ((Cb + Cr) >> 2)` with an arithmetic
//! right shift, then `r = Cr + g` and `b = Cb + g`, each clamped into the
//! channel's unsigned range and written back in (R, G, B) order.

use vstd::prelude::*;
use vstd::arithmetic::div_mod::lemma_fundamental_div_mod;
use vstd::arithmetic::div_mod::lemma_fundamental_div_mod_converse;
use vstd::arithmetic::div_mod::lemma_mod_division_less_than_divisor;

verus! {

/// A byte reinterpreted as a signed 8-bit value.
pub open spec fn as_signed8(v: u8) -> int {
    if v >= 128 {
        v - 256
    } else {
        v as int
    }
}

/// A 16-bit word reinterpreted as a signed 16-bit value.
pub open spec fn as_signed16(v: u16) -> int {
    if v >= 0x8000 {
        v - 0x10000
    } else {
        v as int
    }
}

/// A signed value stored in its two's-complement 8-bit form.
pub open spec fn enc_signed8(v: int) -> u8
    recommends
        -128 <= v < 128,
{
    if v < 0 {
        (v + 256) as u8
    } else {
        v as u8
    }
}

/// A signed value stored in its two's-complement 16-bit form.
pub open spec fn enc_signed16(v: int) -> u16
    recommends
        -0x8000 <= v < 0x8000,
{
    if v < 0 {
        (v + 0x10000) as u16
    } else {
        v as u16
    }
}

/// `v` forced into `[lo, hi]`: clamping silently absorbs an out-of-range
/// result rather than wrapping or failing.
pub open spec fn spec_clamp(v: int, lo: int, hi: int) -> int {
    if v < lo {
        lo
    } else if v > hi {
        hi
    } else {
        v
    }
}

/// The inverse transform of one 8-bit (Y, Cb, Cr) pixel, as the clamped
/// (R, G, B) triple. The shift `(Cb + Cr) >> 2` is arithmetic, which on
/// integers is flooring division by four.
pub open spec fn rct8_pixel(y: u8, cb: u8, cr: u8) -> (u8, u8, u8) {
    let g = y - (as_signed8(cb) + as_signed8(cr)) / 4;
    let r = as_signed8(cr) + g;
    let b = as_signed8(cb) + g;
    (
        spec_clamp(r, 0, 255) as u8,
        spec_clamp(g, 0, 255) as u8,
        spec_clamp(b, 0, 255) as u8,
    )
}

/// The inverse transform of one 16-bit (Y, Cb, Cr) pixel.
pub open spec fn rct16_pixel(y: u16, cb: u16, cr: u16) -> (u16, u16, u16) {
    let g = y - (as_signed16(cb) + as_signed16(cr)) / 4;
    let r = as_signed16(cr) + g;
    let b = as_signed16(cb) + g;
    (
        spec_clamp(r, 0, 65535) as u16,
        spec_clamp(g, 0, 65535) as u16,
        spec_clamp(b, 0, 65535) as u16,
    )
}

/// A 16-bit word from its little-endian bytes.
pub open spec fn combine16(lo: u8, hi: u8) -> u16 {
    (lo as u16) | ((hi as u16) << 8)
}

/// The low byte of a 16-bit word.
pub open spec fn lo16(v: u16) -> u8 {
    (v & 0xFF) as u8
}

/// The high byte of a 16-bit word.
pub open spec fn hi16(v: u16) -> u8 {
    (v >> 8) as u8
}

/// Byte `i` of an RGB8 buffer after the inverse transform: pixels are
/// complete 3-byte chunks; a trailing partial chunk is left unchanged.
pub open spec fn rct8_at(s: Seq<u8>, i: int) -> u8
    recommends
        0 <= i < s.len(),
{
    let p = i / 3;
    if i < 3 * (s.len() as int / 3) {
        let t = rct8_pixel(s[3 * p], s[3 * p + 1], s[3 * p + 2]);
        if i % 3 == 0 {
            t.0
        } else if i % 3 == 1 {
            t.1
        } else {
            t.2
        }
    } else {
        s[i]
    }
}

/// An RGB8 buffer after the inverse transform.
pub open spec fn rct8_seq(s: Seq<u8>) -> Seq<u8> {
    Seq::new(s.len(), |i: int| rct8_at(s, i))
}

/// Byte `i` of an RGB16 buffer after the inverse transform: pixels are
/// complete 6-byte chunks of little-endian words; a trailing partial
/// chunk is left unchanged.
pub open spec fn rct16_at(s: Seq<u8>, i: int) -> u8
    recommends
        0 <= i < s.len(),
{
    let p = i / 6;
    if i < 6 * (s.len() as int / 6) {
        let t = rct16_pixel(
            combine16(s[6 * p], s[6 * p + 1]),
            combine16(s[6 * p + 2], s[6 * p + 3]),
            combine16(s[6 * p + 4], s[6 * p + 5]),
        );
        let c = i % 6;
        if c == 0 {
            lo16(t.0)
        } else if c == 1 {
            hi16(t.0)
        } else if c == 2 {
            lo16(t.1)
        } else if c == 3 {
            hi16(t.1)
        } else if c == 4 {
            lo16(t.2)
        } else {
            hi16(t.2)
        }
    } else {
        s[i]
    }
}

/// An RGB16 buffer after the inverse transform.
pub open spec fn rct16_seq(s: Seq<u8>) -> Seq<u8> {
    Seq::new(s.len(), |i: int| rct16_at(s, i))
}

/// Adding a multiple of the divisor shifts a flooring quotient by that
/// multiple.
proof fn lemma_div_offset(s: int, k: int)
    requires
        k >= 0,
    ensures
        (s + 4 * k) / 4 == s / 4 + k,
{
    lemma_fundamental_div_mod(s, 4);
    lemma_mod_division_less_than_divisor(s, 4);
    lemma_fundamental_div_mod_converse(s + 4 * k, 4, s / 4 + k, s % 4);
}

/// The clamp of an in-range value into `[lo, hi]`.
fn clamp_i32(v: i32, lo: i32, hi: i32) -> (r: i32)
    requires
        lo <= hi,
    ensures
        r == spec_clamp(v as int, lo as int, hi as int),
{
    if v < lo {
        lo
    } else if v > hi {
        hi
    } else {
        v
    }
}

/// Inverts the reversible color transform in place on an RGB8 buffer,
/// three bytes per pixel; bytes past the last complete pixel are left
/// unchanged.
pub fn rct_inverse_rgb8(buf: &mut Vec<u8>)
    ensures
        final(buf)@ == rct8_seq(old(buf)@),
{
    let len = buf.len();
    let n = len / 3;
    let mut p: usize = 0;
    while p < n
        invariant
            0 <= p <= n,
            buf@.len() == len,
            n == buf@.len() as int / 3,
            buf@.len() == old(buf)@.len(),
            forall|i: int| 0 <= i < 3 * p ==> buf@[i] == rct8_at(old(buf)@, i),
            forall|i: int| 3 * p <= i < buf@.len() ==> buf@[i] == old(buf)@[i],
        decreases n - p,
    {
        proof {
            assert(3 * p + 3 <= 3 * n) by (nonlinear_arith)
                requires
                    p < n,
            ;
            assert(3 * n <= buf@.len()) by (nonlinear_arith)
                requires
                    n == buf@.len() as int / 3,
            ;
        }
        let base: usize = 3 * p;
        let y = buf[base];
        let cb = buf[base + 1];
        let cr = buf[base + 2];
        let cb_s: i32 = if cb >= 128 {
            cb as i32 - 256
        } else {
            cb as i32
        };
        let cr_s: i32 = if cr >= 128 {
            cr as i32 - 256
        } else {
            cr as i32
        };
        // The sum is offset by 512 = 4 * 128 to stay non-negative, so the
        // flooring unsigned division matches the arithmetic right shift.
        let t: u32 = (cb_s + cr_s + 512) as u32;
        let q: i32 = (t / 4) as i32 - 128;
        proof {
            lemma_div_offset(cb_s as int + cr_s as int, 128);
        }
        let g: i32 = y as i32 - q;
        let r: i32 = cr_s + g;
        let b: i32 = cb_s + g;
        let r8 = clamp_i32(r, 0, 255) as u8;
        let g8 = clamp_i32(g, 0, 255) as u8;
        let b8 = clamp_i32(b, 0, 255) as u8;
        let ghost before = buf@;
        buf[base] = r8;
        buf[base + 1] = g8;
        buf[base + 2] = b8;
        proof {
            let pi = p as int;
            assert(rct8_pixel(old(buf)@[3 * pi], old(buf)@[3 * pi + 1], old(buf)@[3 * pi + 2])
                == (r8, g8, b8));
            assert forall|i: int| 0 <= i < 3 * (pi + 1) implies buf@[i] == rct8_at(old(buf)@, i) by {
                if i >= 3 * pi {
                    assert(i / 3 == pi) by (nonlinear_arith)
                        requires
                            3 * pi <= i < 3 * pi + 3,
                    ;
                    assert(3 * pi + 3 <= 3 * (old(buf)@.len() as int / 3));
                }
            }
        }
        p = p + 1;
    }
    proof {
        assert forall|i: int| 0 <= i < buf@.len() implies buf@[i] == rct8_at(old(buf)@, i) by {
            if i >= 3 * (old(buf)@.len() as int / 3) {
                assert(buf@[i] == old(buf)@[i]);
            } else {
                assert(3 * (old(buf)@.len() as int / 3) == 3 * n);
            }
        }
        assert(buf@ =~= rct8_seq(old(buf)@));
    }
}

/// Inverts the reversible color transform in place on an RGB16 buffer,
/// six bytes per pixel as three little-endian words; bytes past the last
/// complete pixel are left unchanged.
pub fn rct_inverse_rgb16(buf: &mut Vec<u8>)
    ensures
        final(buf)@ == rct16_seq(old(buf)@),
{
    let len = buf.len();
    let n = len / 6;
    let mut p: usize = 0;
    while p < n
        invariant
            0 <= p <= n,
            buf@.len() == len,
            n == buf@.len() as int / 6,
            buf@.len() == old(buf)@.len(),
            forall|i: int| 0 <= i < 6 * p ==> buf@[i] == rct16_at(old(buf)@, i),
            forall|i: int| 6 * p <= i < buf@.len() ==> buf@[i] == old(buf)@[i],
        decreases n - p,
    {
        proof {
            assert(6 * p + 6 <= 6 * n) by (nonlinear_arith)
                requires
                    p < n,
            ;
            assert(6 * n <= buf@.len()) by (nonlinear_arith)
                requires
                    n == buf@.len() as int / 6,
            ;
        }
        let base: usize = 6 * p;
        let y: u16 = (buf[base] as u16) | ((buf[base + 1] as u16) << 8);
        let cb: u16 = (buf[base + 2] as u16) | ((buf[base + 3] as u16) << 8);
        let cr: u16 = (buf[base + 4] as u16) | ((buf[base + 5] as u16) << 8);
        proof {
            assert((buf@[base as int] as u16) | ((buf@[base as int + 1] as u16) << 8) == combine16(
                buf@[base as int],
                buf@[base as int + 1],
            ));
        }
        let cb_s: i32 = if cb >= 0x8000 {
            cb as i32 - 0x10000
        } else {
            cb as i32
        };
        let cr_s: i32 = if cr >= 0x8000 {
            cr as i32 - 0x10000
        } else {
            cr as i32
        };
        // Offset by 65536 = 4 * 16384 to keep the dividend non-negative.
        let t: u32 = (cb_s + cr_s + 65536) as u32;
        let q: i32 = (t / 4) as i32 - 16384;
        proof {
            lemma_div_offset(cb_s as int + cr_s as int, 16384);
        }
        let g: i32 = y as i32 - q;
        let r: i32 = cr_s + g;
        let b: i32 = cb_s + g;
        let r16 = clamp_i32(r, 0, 65535) as u16;
        let g16 = clamp_i32(g, 0, 65535) as u16;
        let b16 = clamp_i32(b, 0, 65535) as u16;
        buf[base] = (r16 & 0xFF) as u8;
        buf[base + 1] = (r16 >> 8) as u8;
        buf[base + 2] = (g16 & 0xFF) as u8;
        buf[base + 3] = (g16 >> 8) as u8;
        buf[base + 4] = (b16 & 0xFF) as u8;
        buf[base + 5] = (b16 >> 8) as u8;
        proof {
            let pi = p as int;
            let yv = combine16(old(buf)@[6 * pi], old(buf)@[6 * pi + 1]);
            let cbv = combine16(old(buf)@[6 * pi + 2], old(buf)@[6 * pi + 3]);
            let crv = combine16(old(buf)@[6 * pi + 4], old(buf)@[6 * pi + 5]);
            assert(rct16_pixel(yv, cbv, crv) == (r16, g16, b16));
            assert forall|i: int| 0 <= i < 6 * (pi + 1) implies buf@[i] == rct16_at(old(buf)@, i) by {
                if i >= 6 * pi {
                    assert(i / 6 == pi) by (nonlinear_arith)
                        requires
                            6 * pi <= i < 6 * pi + 6,
                    ;
                    assert(6 * pi + 6 <= 6 * (old(buf)@.len() as int / 6));
                }
            }
        }
        p = p + 1;
    }
    proof {
        assert forall|i: int| 0 <= i < buf@.len() implies buf@[i] == rct16_at(old(buf)@, i) by {
            if i >= 6 * (old(buf)@.len() as int / 6) {
                assert(buf@[i] == old(buf)@[i]);
            } else {
                assert(6 * (old(buf)@.len() as int / 6) == 6 * n);
            }
        }
        assert(buf@ =~= rct16_seq(old(buf)@));
    }
}

/// The forward transform an encoder applies to one 8-bit (R, G, B) pixel,
/// where its chroma differences and luma stay representable.
pub open spec fn rct8_forward_in_range(r: u8, g: u8, b: u8) -> bool {
    &&& -128 <= b - g < 128
    &&& -128 <= r - g < 128
    &&& 0 <= g + ((b - g) + (r - g)) / 4 <= 255
}

/// The forward transform of one 8-bit (R, G, B) pixel into its stored
/// (Y, Cb, Cr) bytes.
pub open spec fn rct8_forward_pixel(r: u8, g: u8, b: u8) -> (u8, u8, u8)
    recommends
        rct8_forward_in_range(r, g, b),
{
    let cb = b - g;
    let cr = r - g;
    let y = g + (cb + cr) / 4;
    (y as u8, enc_signed8(cb), enc_signed8(cr))
}

/// Transform invertibility, 8-bit: the inverse transform reproduces any
/// (R, G, B) triple the forward transform can represent, exactly.
pub proof fn lemma_rct8_invertible(r: u8, g: u8, b: u8)
    requires
        rct8_forward_in_range(r, g, b),
    ensures
        ({
            let t = rct8_forward_pixel(r, g, b);
            rct8_pixel(t.0, t.1, t.2) == (r, g, b)
        }),
{
    let cb = b - g;
    let cr = r - g;
    assert(as_signed8(enc_signed8(cb)) == cb);
    assert(as_signed8(enc_signed8(cr)) == cr);
}

/// The forward transform an encoder applies to one 16-bit (R, G, B)
/// pixel, where its chroma differences and luma stay representable.
pub open spec fn rct16_forward_in_range(r: u16, g: u16, b: u16) -> bool {
    &&& -0x8000 <= b - g < 0x8000
    &&& -0x8000 <= r - g < 0x8000
    &&& 0 <= g + ((b - g) + (r - g)) / 4 <= 65535
}

/// The forward transform of one 16-bit (R, G, B) pixel into its stored
/// (Y, Cb, Cr) words.
pub open spec fn rct16_forward_pixel(r: u16, g: u16, b: u16) -> (u16, u16, u16)
    recommends
        rct16_forward_in_range(r, g, b),
{
    let cb = b - g;
    let cr = r - g;
    let y = g + (cb + cr) / 4;
    (y as u16, enc_signed16(cb), enc_signed16(cr))
}

/// Transform invertibility, 16-bit: the inverse transform reproduces any
/// (R, G, B) triple the forward transform can represent, exactly.
pub proof fn lemma_rct16_invertible(r: u16, g: u16, b: u16)
    requires
        rct16_forward_in_range(r, g, b),
    ensures
        ({
            let t = rct16_forward_pixel(r, g, b);
            rct16_pixel(t.0, t.1, t.2) == (r, g, b)
        }),
{
    let cb = b - g;
    let cr = r - g;
    assert(as_signed16(enc_signed16(cb)) == cb);
    assert(as_signed16(enc_signed16(cr)) == cr);
}

} // verus!
