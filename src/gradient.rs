//! Legend gradients: colors as RGBA bytes, painted across a legend image.

use vstd::prelude::*;
use crate::scale::{lerp_hsv, lerp_hsv_spec, Fraction, Hsva, FULL};

verus! {

/// Hue units in one sixth of a turn.
pub const SECTOR: u32 = 600;

/// Red, green and blue in thousandths, by the usual six-sector formula.
pub open spec fn rgb_spec(c: Hsva) -> (int, int, int) {
    let v = c.v as int;
    let s = c.s as int;
    let sector = c.h / SECTOR;
    let f = (c.h % SECTOR) as int;
    let p = v * (1000 - s) / 1000;
    let q = v * (600000 - s * f) / 600000;
    let t = v * (600000 - s * (600 - f)) / 600000;
    if sector == 0 {
        (v, t, p)
    } else if sector == 1 {
        (q, v, p)
    } else if sector == 2 {
        (p, v, t)
    } else if sector == 3 {
        (p, q, v)
    } else if sector == 4 {
        (t, p, v)
    } else {
        (v, p, q)
    }
}

/// A channel in thousandths as a byte.
pub open spec fn to_byte(x: int) -> u8 {
    (x * 255 / 1000) as u8
}

/// The color as red, green, blue and alpha bytes.
pub open spec fn rgba8_spec(c: Hsva) -> Seq<u8> {
    let (r, g, b) = rgb_spec(c);
    seq![to_byte(r), to_byte(g), to_byte(b), to_byte(c.a as int)]
}

fn byte_of(x: u64) -> (r: u8)
    requires
        x <= 1000,
    ensures
        r == to_byte(x as int),
{
    assert(x * 255 / 1000 <= 255) by (nonlinear_arith)
        requires
            x <= 1000,
    ;
    (x * 255 / 1000) as u8
}

/// The color as red, green, blue and alpha bytes.
pub fn to_rgba8(c: Hsva) -> (r: [u8; 4])
    requires
        c.wf(),
    ensures
        r@ == rgba8_spec(c),
{
    let v: u64 = c.v as u64;
    let s: u64 = c.s as u64;
    let sector: u32 = c.h / SECTOR;
    let f: u64 = (c.h % SECTOR) as u64;
    assert(v * (1000 - s) / 1000 <= v) by (nonlinear_arith)
        requires
            v <= 1000,
            s <= 1000,
    ;
    assert(v * (600000 - s * f) / 600000 <= v && s * f <= 600000) by (nonlinear_arith)
        requires
            v <= 1000,
            s <= 1000,
            f < 600,
    ;
    assert(v * (600000 - s * (600 - f)) / 600000 <= v && s * (600 - f) <= 600000) by (nonlinear_arith)
        requires
            v <= 1000,
            s <= 1000,
            f < 600,
    ;
    let p: u64 = v * (1000 - s) / 1000;
    let q: u64 = v * (600000 - s * f) / 600000;
    let t: u64 = v * (600000 - s * (600 - f)) / 600000;
    let (r, g, b): (u64, u64, u64) = if sector == 0 {
        (v, t, p)
    } else if sector == 1 {
        (q, v, p)
    } else if sector == 2 {
        (p, v, t)
    } else if sector == 3 {
        (p, q, v)
    } else if sector == 4 {
        (t, p, v)
    } else {
        (v, p, q)
    };
    let out = [byte_of(r), byte_of(g), byte_of(b), byte_of(c.a as u64)];
    assert(out@ =~= rgba8_spec(c));
    out
}

/// The color of column `x` of a legend `width` pixels wide: the scale
/// sampled at evenly spaced points from `c1` (left) to `c2` (right).
pub open spec fn column_color(x: int, width: int, c1: Hsva, c2: Hsva) -> Hsva {
    if width <= 1 {
        c1
    } else {
        lerp_hsv_spec(Fraction { num: x as u64, den: (width - 1) as u64 }, c1, c2)
    }
}

/// Byte `k` of a legend image after painting: pixels that were transparent
/// stay fully transparent; the others take the color of their column.
pub open spec fn painted_byte(pixels: Seq<u8>, width: int, c1: Hsva, c2: Hsva, k: int) -> u8 {
    let i = k / 4;
    if pixels[4 * i + 3] != 0 {
        rgba8_spec(column_color(i % width, width, c1, c2))[k % 4]
    } else {
        0
    }
}

/// Paints a legend image (rows of `width` RGBA pixels) with the color scale
/// from `c1` to `c2`, keeping the silhouette of its transparent pixels.
pub fn paint_legend(pixels: &Vec<u8>, width: usize, c1: Hsva, c2: Hsva) -> (r: Vec<u8>)
    requires
        width > 0,
        pixels@.len() % 4 == 0,
        c1.wf(),
        c2.wf(),
    ensures
        r@.len() == pixels@.len(),
        forall|k: int| 0 <= k < r@.len() ==> #[trigger] r@[k] == painted_byte(pixels@, width as int, c1, c2, k),
{
    let len = pixels.len();
    let n = len / 4;
    let mut out: Vec<u8> = Vec::new();
    let mut i: usize = 0;
    while i < n
        invariant
            0 <= i <= n,
            n * 4 == pixels@.len(),
            len == pixels@.len(),
            width > 0,
            c1.wf(),
            c2.wf(),
            out@.len() == 4 * i,
            forall|k: int| 0 <= k < out@.len() ==> #[trigger] out@[k] == painted_byte(pixels@, width as int, c1, c2, k),
        decreases n - i,
    {
        let x = i % width;
        assert(4 * i + 3 < pixels@.len()) by (nonlinear_arith)
            requires
                i < n,
                n * 4 == pixels@.len(),
        ;
        assert(4 * i + 3 < len);
        let base: usize = 4 * i;
        if pixels[base + 3] != 0 {
            let c = if width <= 1 {
                c1
            } else {
                lerp_hsv(Fraction { num: x as u64, den: (width - 1) as u64 }, c1, c2)
            };
            let px = to_rgba8(c);
            out.push(px[0]);
            out.push(px[1]);
            out.push(px[2]);
            out.push(px[3]);
        } else {
            out.push(0);
            out.push(0);
            out.push(0);
            out.push(0);
        }
        proof {
            assert forall|k: int| 4 * i <= k < 4 * i + 4 implies #[trigger] out@[k] == painted_byte(pixels@, width as int, c1, c2, k) by {
                assert(k / 4 == i as int);
                assert(k % 4 == k - 4 * i);
            }
        }
        i += 1;
    }
    out
}

} // verus!
