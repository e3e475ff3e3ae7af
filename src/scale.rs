//! Scales: affine interpolation, color interpolation and sample extremes.

use vstd::prelude::*;

verus! {

/// Hue units in one full turn (tenths of a degree).
pub const TURN: u32 = 3600;

/// Half a turn of hue.
pub const HALF_TURN: u32 = 1800;

/// Full scale of saturation, value and alpha (thousandths).
pub const FULL: u32 = 1000;

/// Truncating division of a signed numerator by a signed, nonzero denominator.
pub open spec fn trunc_div(n: int, d: int) -> int
    recommends
        d != 0,
{
    let q = abs_int(n) / abs_int(d);
    if (n < 0) == (d < 0) {
        q
    } else {
        -q
    }
}

pub open spec fn abs_int(n: int) -> int {
    if n < 0 {
        -n
    } else {
        n
    }
}

/// The affine map sending `a` to `x` and `b` to `y`, evaluated at `v`.
/// A degenerate source range maps everything to the middle of the target.
pub open spec fn lerp_spec(v: int, a: int, b: int, x: int, y: int) -> int {
    if a == b {
        (x + y) / 2
    } else {
        x + trunc_div((v - a) * (y - x), b - a)
    }
}

proof fn lemma_trunc_div_self(n: int)
    requires
        n != 0,
    ensures
        trunc_div(n, n) == 1,
        forall|k: int| #[trigger] trunc_div(k * n, n) == k,
{
    assert forall|k: int| #[trigger] trunc_div(k * n, n) == k by {
        let m = abs_int(n);
        assert(abs_int(k * n) == abs_int(k) * m) by (nonlinear_arith)
            requires
                m == abs_int(n),
        ;
        assert((abs_int(k) * m) / m == abs_int(k)) by (nonlinear_arith)
            requires
                m > 0,
        ;
        if k != 0 {
            assert((k * n < 0) == ((k < 0) != (n < 0))) by (nonlinear_arith)
                requires
                    k != 0,
                    n != 0,
            ;
        }
    }
    assert(trunc_div(1 * n, n) == 1);
}

/// Affine interpolation: maps `v` from the range `[a, b]` onto `[x, y]`,
/// rounding toward `x`. When `a == b` the result is the midpoint of `[x, y]`.
pub fn lerp(v: i64, a: i64, b: i64, x: i64, y: i64) -> (r: i64)
    requires
        i64::MIN <= lerp_spec(v as int, a as int, b as int, x as int, y as int) <= i64::MAX,
    ensures
        r == lerp_spec(v as int, a as int, b as int, x as int, y as int),
        a != b && v == a ==> r == x,
        a != b && v == b ==> r == y,
{
    proof {
        if a != b {
            lemma_trunc_div_self((b - a) as int);
            assert(trunc_div(0, (b - a) as int) == 0);
            if v == a {
                assert(((v - a) as int) * ((y - x) as int) == 0);
            }
            assert(((b - a) as int) * ((y - x) as int) == ((y - x) as int) * ((b - a) as int))
                by (nonlinear_arith);
        }
    }
    if a == b {
        let s: i128 = x as i128 + y as i128;
        // floor division by two, written for a signed sum
        let h: i128 = if s >= 0 {
            s / 2
        } else {
            -((-s + 1) / 2)
        };
        return h as i64;
    }
    let dv: i128 = v as i128 - a as i128;
    let dy: i128 = y as i128 - x as i128;
    let db: i128 = b as i128 - a as i128;
    let mv: u128 = if dv < 0 { (-dv) as u128 } else { dv as u128 };
    let my: u128 = if dy < 0 { (-dy) as u128 } else { dy as u128 };
    let mb: u128 = if db < 0 { (-db) as u128 } else { db as u128 };
    assert(mv * my <= u128::MAX) by (nonlinear_arith)
        requires
            mv < 0x1_0000_0000_0000_0000u128,
            my < 0x1_0000_0000_0000_0000u128,
    ;
    let prod: u128 = mv * my;
    let q: u128 = prod / mb;
    proof {
        assert(abs_int(dv * dy) == mv * my) by (nonlinear_arith)
            requires
                mv == abs_int(dv as int),
                my == abs_int(dy as int),
        ;
        if dv * dy != 0 {
            assert(((dv * dy) < 0) == ((dv < 0) != (dy < 0))) by (nonlinear_arith)
                requires
                    dv * dy != 0,
            ;
        }
        let sp = lerp_spec(v as int, a as int, b as int, x as int, y as int);
        assert(sp == x + trunc_div(dv * dy, db as int));
    }
    let negative: bool = prod != 0 && (((dv < 0) != (dy < 0)) != (db < 0));
    proof {
        let n = dv * dy;
        assert(trunc_div(n, db as int) == if negative { -(q as int) } else { q as int });
    }
    if negative {
        (x as i128 - q as i128) as i64
    } else {
        (x as i128 + q as i128) as i64
    }
}

/// A color in hue, saturation, value and alpha.
#[derive(Clone, Copy, Debug, PartialEq, Eq, Structural)]
pub struct Hsva {
    /// Hue in tenths of a degree, below `TURN`.
    pub h: u32,
    /// Saturation in thousandths.
    pub s: u32,
    /// Value (brightness) in thousandths.
    pub v: u32,
    /// Opacity in thousandths.
    pub a: u32,
}

impl Hsva {
    pub open spec fn wf(self) -> bool {
        self.h < TURN && self.s <= FULL && self.v <= FULL && self.a <= FULL
    }
}

/// A position `num / den` within `[0, 1]`.
#[derive(Clone, Copy, Debug, PartialEq, Eq, Structural)]
pub struct Fraction {
    pub num: u64,
    pub den: u64,
}

impl Fraction {
    pub open spec fn wf(self) -> bool {
        0 < self.den && self.num <= self.den
    }

    /// The start of the interval.
    pub fn zero() -> (r: Fraction)
        ensures
            r.wf(),
            r.num == 0,
    {
        Fraction { num: 0, den: 1 }
    }

    /// The end of the interval.
    pub fn one() -> (r: Fraction)
        ensures
            r.wf(),
            r.num == r.den,
    {
        Fraction { num: 1, den: 1 }
    }
}

/// The part `t` of a nonnegative amount `m`, rounded down.
pub open spec fn scaled(m: int, t: Fraction) -> int {
    m * (t.num as int) / (t.den as int)
}

/// Linear mix of two channel values at `t`, rounding toward `p`.
pub open spec fn mix_spec(p: int, q: int, t: Fraction) -> int {
    if p <= q {
        p + scaled(q - p, t)
    } else {
        p - scaled(p - q, t)
    }
}

/// Signed hue difference from `h1` to `h2` along the shorter arc.
pub open spec fn hue_delta(h1: int, h2: int) -> int {
    let d = h2 - h1;
    if d > HALF_TURN {
        d - TURN
    } else if d < -(HALF_TURN as int) {
        d + TURN
    } else {
        d
    }
}

/// Hue reached after moving the fraction `t` of the shorter arc from `h1` to `h2`.
pub open spec fn hue_mix_spec(h1: int, h2: int, t: Fraction) -> int {
    let d = hue_delta(h1, h2);
    let step = if d < 0 {
        -scaled(-d, t)
    } else {
        scaled(d, t)
    };
    let h = h1 + step;
    if h < 0 {
        h + TURN
    } else if h >= TURN {
        h - TURN
    } else {
        h
    }
}

/// Interpolation between two colors: hue along the shorter arc of the hue
/// circle, saturation, value and alpha linearly.
pub open spec fn lerp_hsv_spec(t: Fraction, c1: Hsva, c2: Hsva) -> Hsva {
    Hsva {
        h: hue_mix_spec(c1.h as int, c2.h as int, t) as u32,
        s: mix_spec(c1.s as int, c2.s as int, t) as u32,
        v: mix_spec(c1.v as int, c2.v as int, t) as u32,
        a: mix_spec(c1.a as int, c2.a as int, t) as u32,
    }
}

proof fn lemma_scaled_step(m: int, t: Fraction)
    requires
        t.wf(),
        0 <= m,
    ensures
        0 <= scaled(m, t) <= m,
        t.num == 0 ==> scaled(m, t) == 0,
        t.num == t.den ==> scaled(m, t) == m,
{
    let n = t.num as int;
    let d = t.den as int;
    assert(0 <= m * n <= m * d) by (nonlinear_arith)
        requires
            0 <= m,
            0 <= n <= d,
    ;
    assert((m * d) / d == m) by (nonlinear_arith)
        requires
            d > 0,
    ;
    assert(0 <= (m * n) / d <= (m * d) / d) by (nonlinear_arith)
        requires
            0 <= m * n <= m * d,
            d > 0,
    ;
    if n == 0 {
        assert(m * n == 0) by (nonlinear_arith)
            requires
                n == 0,
        ;
    }
}

fn mix(p: u32, q: u32, t: Fraction) -> (r: u32)
    requires
        t.wf(),
    ensures
        r == mix_spec(p as int, q as int, t),
        p <= q ==> p <= r <= q,
        q <= p ==> q <= r <= p,
        t.num == 0 ==> r == p,
        t.num == t.den ==> r == q,
{
    if p <= q {
        proof {
            lemma_scaled_step((q - p) as int, t);
        }
        let m: u128 = (q - p) as u128;
        assert(m * (t.num as u128) <= u128::MAX) by (nonlinear_arith)
            requires
                m <= 0xffff_ffff,
                t.num <= 0xffff_ffff_ffff_ffffu64,
        ;
        let step: u128 = m * (t.num as u128) / (t.den as u128);
        p + step as u32
    } else {
        proof {
            lemma_scaled_step((p - q) as int, t);
        }
        let m: u128 = (p - q) as u128;
        assert(m * (t.num as u128) <= u128::MAX) by (nonlinear_arith)
            requires
                m <= 0xffff_ffff,
                t.num <= 0xffff_ffff_ffff_ffffu64,
        ;
        let step: u128 = m * (t.num as u128) / (t.den as u128);
        p - step as u32
    }
}

fn hue_mix(h1: u32, h2: u32, t: Fraction) -> (r: u32)
    requires
        t.wf(),
        h1 < TURN,
        h2 < TURN,
    ensures
        r == hue_mix_spec(h1 as int, h2 as int, t),
        r < TURN,
        t.num == 0 ==> r == h1,
        t.num == t.den ==> r == h2,
{
    let d: i64 = h2 as i64 - h1 as i64;
    let d: i64 = if d > HALF_TURN as i64 {
        d - TURN as i64
    } else if d < -(HALF_TURN as i64) {
        d + TURN as i64
    } else {
        d
    };
    assert(d == hue_delta(h1 as int, h2 as int));
    let m: u128 = if d < 0 { (-d) as u128 } else { d as u128 };
    proof {
        lemma_scaled_step(m as int, t);
    }
    assert(m * (t.num as u128) <= u128::MAX) by (nonlinear_arith)
        requires
            m <= 0xffff_ffff,
            t.num <= 0xffff_ffff_ffff_ffffu64,
    ;
    let mag: u128 = m * (t.num as u128) / (t.den as u128);
    let step: i64 = if d < 0 { -(mag as i64) } else { mag as i64 };
    let h: i64 = h1 as i64 + step;
    let h: i64 = if h < 0 {
        h + TURN as i64
    } else if h >= TURN as i64 {
        h - TURN as i64
    } else {
        h
    };
    h as u32
}

/// Interpolates between `c1` (at `t = 0`) and `c2` (at `t = 1`): hue along the
/// shorter arc of the hue circle, saturation, value and alpha linearly.
pub fn lerp_hsv(t: Fraction, c1: Hsva, c2: Hsva) -> (r: Hsva)
    requires
        t.wf(),
        c1.wf(),
        c2.wf(),
    ensures
        r == lerp_hsv_spec(t, c1, c2),
        r.wf(),
        t.num == 0 ==> r == c1,
        t.num == t.den ==> r == c2,
{
    Hsva {
        h: hue_mix(c1.h, c2.h, t),
        s: mix(c1.s, c2.s, t),
        v: mix(c1.v, c2.v, t),
        a: mix(c1.a, c2.a, t),
    }
}

/// Smallest sample of a non-empty sample set.
pub fn min_sample(v: &Vec<i64>) -> (r: i64)
    requires
        v@.len() > 0,
    ensures
        v@.contains(r),
        forall|i: int| 0 <= i < v@.len() ==> r <= #[trigger] v@[i],
{
    let mut r: i64 = v[0];
    let mut i: usize = 1;
    while i < v.len()
        invariant
            1 <= i <= v@.len(),
            v@.contains(r),
            forall|j: int| 0 <= j < i ==> r <= #[trigger] v@[j],
        decreases v@.len() - i,
    {
        if v[i] < r {
            r = v[i];
        }
        i += 1;
    }
    r
}

/// Largest sample of a non-empty sample set.
pub fn max_sample(v: &Vec<i64>) -> (r: i64)
    requires
        v@.len() > 0,
    ensures
        v@.contains(r),
        forall|i: int| 0 <= i < v@.len() ==> #[trigger] v@[i] <= r,
{
    let mut r: i64 = v[0];
    let mut i: usize = 1;
    while i < v.len()
        invariant
            1 <= i <= v@.len(),
            v@.contains(r),
            forall|j: int| 0 <= j < i ==> #[trigger] v@[j] <= r,
        decreases v@.len() - i,
    {
        if v[i] > r {
            r = v[i];
        }
        i += 1;
    }
    r
}

/// Position of `v` within `[lo, hi]`; a degenerate range gives the midpoint.
pub open spec fn fraction_spec(v: int, lo: int, hi: int) -> Fraction {
    if lo == hi {
        Fraction { num: 1, den: 2 }
    } else {
        Fraction { num: (v - lo) as u64, den: (hi - lo) as u64 }
    }
}

/// Where `v` stands within `[lo, hi]`, as the interpolation parameter of a
/// color scale. A degenerate range gives one half.
pub fn fraction_of(v: i64, lo: i64, hi: i64) -> (r: Fraction)
    requires
        lo <= v <= hi,
    ensures
        r == fraction_spec(v as int, lo as int, hi as int),
        r.wf(),
{
    if lo == hi {
        Fraction { num: 1, den: 2 }
    } else {
        Fraction { num: (v as i128 - lo as i128) as u64, den: (hi as i128 - lo as i128) as u64 }
    }
}

/// For `v` within `[a, b]`, the interpolated value lies between `x` and `y`.
pub proof fn lemma_lerp_between(v: int, a: int, b: int, x: int, y: int)
    requires
        a <= v <= b,
    ensures
        x <= y ==> x <= lerp_spec(v, a, b, x, y) <= y,
        y <= x ==> y <= lerp_spec(v, a, b, x, y) <= x,
{
    if a < b {
        let d = b - a;
        let m = abs_int(y - x);
        let n = (v - a) * (y - x);
        assert(abs_int(n) == (v - a) * m) by (nonlinear_arith)
            requires
                n == (v - a) * (y - x),
                m == abs_int(y - x),
                v - a >= 0,
        ;
        assert((v - a) * m <= d * m) by (nonlinear_arith)
            requires
                0 <= v - a <= d,
                m >= 0,
        ;
        assert((d * m) / d == m) by (nonlinear_arith)
            requires
                d > 0,
        ;
        assert(0 <= ((v - a) * m) / d <= (d * m) / d) by (nonlinear_arith)
            requires
                0 <= (v - a) * m <= d * m,
                d > 0,
        ;
        if x <= y {
            assert(n >= 0) by (nonlinear_arith)
                requires
                    n == (v - a) * (y - x),
                    v - a >= 0,
                    y - x >= 0,
            ;
        } else {
            assert(n <= 0) by (nonlinear_arith)
                requires
                    n == (v - a) * (y - x),
                    v - a >= 0,
                    y - x < 0,
            ;
        }
    }
}

} // verus!
