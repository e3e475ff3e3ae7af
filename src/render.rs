//! Histograms and density curves of sample sets.

use vstd::prelude::*;

verus! {

/// Bars of a histogram drawn beside an arrow.
pub const SIDE_BINS: usize = 30;

/// Bars of a histogram in a hover popup.
pub const POPUP_BINS: usize = 60;

/// Points at which a density curve is evaluated.
pub const KDE_POINTS: usize = 200;

/// The kernel's half-width is this fraction of the range (at least one unit).
pub const KDE_SPAN: i64 = 16;

/// Horizontal extent of a hover popup plot, in map units.
pub const POPUP_WIDTH: u64 = 600;

/// Heights sampled evenly across `[0, width]`: the bars of a histogram, or
/// the points of a density curve.
pub struct Profile {
    pub heights: Vec<u128>,
    pub width: u64,
    pub curve: bool,
}

/// The bin of `v` among `bins` equal bins over `[lo, hi]` (the last bin is
/// closed), or -1 when `v` lies outside.
pub open spec fn bin_of(v: int, lo: int, hi: int, bins: int) -> int {
    if v < lo || v > hi {
        -1
    } else {
        let k = (v - lo) * bins / (hi - lo);
        if k >= bins {
            bins - 1
        } else {
            k
        }
    }
}

/// How many samples fall into bin `k`.
pub open spec fn bin_count(s: Seq<i64>, lo: int, hi: int, bins: int, k: int) -> nat
    decreases s.len(),
{
    if s.len() == 0 {
        0
    } else {
        bin_count(s.drop_last(), lo, hi, bins, k) + if bin_of(s.last() as int, lo, hi, bins) == k {
            1nat
        } else {
            0nat
        }
    }
}

pub open spec fn hist_spec(s: Seq<i64>, lo: int, hi: int, bins: int) -> Seq<u128> {
    Seq::new(bins as nat, |k: int| bin_count(s, lo, hi, bins, k) as u128)
}

proof fn lemma_bin_count_bound(s: Seq<i64>, lo: int, hi: int, bins: int, k: int)
    ensures
        bin_count(s, lo, hi, bins, k) <= s.len(),
    decreases s.len(),
{
    if s.len() > 0 {
        lemma_bin_count_bound(s.drop_last(), lo, hi, bins, k);
    }
}

fn bin_index(v: i64, lo: i64, hi: i64, bins: usize) -> (r: Option<usize>)
    requires
        lo < hi,
        bins > 0,
    ensures
        r matches Some(k) ==> k as int == bin_of(v as int, lo as int, hi as int, bins as int) && k < bins,
        r is None ==> bin_of(v as int, lo as int, hi as int, bins as int) == -1,
{
    if v < lo || v > hi {
        return None;
    }
    let off: u128 = (v as i128 - lo as i128) as u128;
    let span: u128 = (hi as i128 - lo as i128) as u128;
    assert(off * (bins as u128) <= u128::MAX) by (nonlinear_arith)
        requires
            off < 0x1_0000_0000_0000_0000u128,
            bins < 0x1_0000_0000_0000_0000u128,
    ;
    let k: u128 = off * (bins as u128) / span;
    if k >= bins as u128 {
        Some(bins - 1)
    } else {
        Some(k as usize)
    }
}

/// Histogram of `s` over `bins` equal bins of `xlimits`, drawn `size` wide.
/// No geometry when there are no samples, no bins, or the range is degenerate.
pub fn plot_hist(s: &Vec<i64>, bins: usize, size: u64, xlimits: (i64, i64)) -> (r: Option<Profile>)
    ensures
        r is None <==> (s@.len() == 0 || bins == 0 || xlimits.0 >= xlimits.1),
        r matches Some(p) ==> p.heights@ == hist_spec(s@, xlimits.0 as int, xlimits.1 as int, bins as int)
            && p.width == size && !p.curve,
{
    let (lo, hi) = xlimits;
    if s.len() == 0 || bins == 0 || lo >= hi {
        return None;
    }
    let mut counts: Vec<u128> = Vec::new();
    let mut k: usize = 0;
    while k < bins
        invariant
            k <= bins,
            counts@.len() == k,
            forall|j: int| 0 <= j < k ==> counts@[j] == 0,
        decreases bins - k,
    {
        counts.push(0);
        k += 1;
    }
    let mut i: usize = 0;
    while i < s.len()
        invariant
            0 <= i <= s@.len(),
            lo < hi,
            bins > 0,
            counts@.len() == bins,
            forall|j: int|
                0 <= j < bins ==> #[trigger] counts@[j] == bin_count(
                    s@.take(i as int),
                    lo as int,
                    hi as int,
                    bins as int,
                    j,
                ),
        decreases s@.len() - i,
    {
        proof {
            assert(s@.take(i as int + 1).drop_last() =~= s@.take(i as int));
        }
        match bin_index(s[i], lo, hi, bins) {
            Some(b) => {
                proof {
                    lemma_bin_count_bound(s@.take(i as int), lo as int, hi as int, bins as int, b as int);
                }
                let c = counts[b];
                counts.set(b, c + 1);
            },
            None => {},
        }
        i += 1;
    }
    proof {
        assert(s@.take(s@.len() as int) =~= s@);
        assert(counts@ =~= hist_spec(s@, lo as int, hi as int, bins as int));
    }
    Some(Profile { heights: counts, width: size, curve: false })
}

/// The `j`-th of `n` evenly spaced points of `[lo, hi]`, rounded down.
pub open spec fn grid_x(lo: int, hi: int, n: int, j: int) -> int {
    lo + (hi - lo) * j / (n - 1)
}

/// The kernel's half-width for the range `[lo, hi]`.
pub open spec fn bandwidth(lo: int, hi: int) -> int {
    let h = (hi - lo) / (KDE_SPAN as int);
    if h < 1 {
        1
    } else {
        h
    }
}

/// Triangular kernel of half-width `h` centred on `v`, evaluated at `x`.
pub open spec fn kernel(x: int, v: int, h: int) -> int {
    let d = if x < v {
        v - x
    } else {
        x - v
    };
    if d < h {
        h - d
    } else {
        0
    }
}

/// Unnormalized kernel density of the samples at `x`.
pub open spec fn kde_sum(s: Seq<i64>, x: int, h: int) -> int
    decreases s.len(),
{
    if s.len() == 0 {
        0
    } else {
        kde_sum(s.drop_last(), x, h) + kernel(x, s.last() as int, h)
    }
}

pub open spec fn kde_spec(s: Seq<i64>, lo: int, hi: int, n: int) -> Seq<u128> {
    Seq::new(n as nat, |j: int| kde_sum(s, grid_x(lo, hi, n, j), bandwidth(lo, hi)) as u128)
}

proof fn lemma_kde_sum_bound(s: Seq<i64>, x: int, h: int)
    requires
        h >= 1,
    ensures
        0 <= kde_sum(s, x, h) <= s.len() * h,
    decreases s.len(),
{
    if s.len() > 0 {
        lemma_kde_sum_bound(s.drop_last(), x, h);
        assert((s.len() - 1) * h + h == s.len() * h) by (nonlinear_arith);
    }
}

fn kde_at(s: &Vec<i64>, x: i64, h: u64) -> (r: u128)
    requires
        h >= 1,
    ensures
        r == kde_sum(s@, x as int, h as int),
{
    let mut acc: u128 = 0;
    let mut i: usize = 0;
    while i < s.len()
        invariant
            0 <= i <= s@.len(),
            h >= 1,
            acc == kde_sum(s@.take(i as int), x as int, h as int),
        decreases s@.len() - i,
    {
        proof {
            assert(s@.take(i as int + 1).drop_last() =~= s@.take(i as int));
            lemma_kde_sum_bound(s@.take(i as int), x as int, h as int);
            assert(i * h + h <= u128::MAX) by (nonlinear_arith)
                requires
                    i < 0x1_0000_0000_0000_0000u128,
                    h < 0x1_0000_0000_0000_0000u128,
            ;
        }
        let v = s[i];
        let d: u128 = if x < v {
            (v as i128 - x as i128) as u128
        } else {
            (x as i128 - v as i128) as u128
        };
        if d < h as u128 {
            acc = acc + (h as u128 - d);
        }
        i += 1;
    }
    proof {
        assert(s@.take(s@.len() as int) =~= s@);
    }
    acc
}

/// Density curve of `s` at `points` evenly spaced points of `xlimits`, drawn
/// `size` wide, with a triangular kernel whose half-width is a fixed fraction
/// of the range. No geometry when there are no samples, fewer than two points,
/// or the range is degenerate.
pub fn plot_kde(s: &Vec<i64>, points: usize, size: u64, xlimits: (i64, i64)) -> (r: Option<Profile>)
    ensures
        r is None <==> (s@.len() == 0 || points < 2 || xlimits.0 >= xlimits.1),
        r matches Some(p) ==> p.heights@ == kde_spec(s@, xlimits.0 as int, xlimits.1 as int, points as int)
            && p.width == size && p.curve,
{
    let (lo, hi) = xlimits;
    if s.len() == 0 || points < 2 || lo >= hi {
        return None;
    }
    let span: u128 = (hi as i128 - lo as i128) as u128;
    let q: u128 = span / (KDE_SPAN as u128);
    let h: u64 = if q < 1 { 1 } else { q as u64 };
    assert(h == bandwidth(lo as int, hi as int));
    let mut heights: Vec<u128> = Vec::new();
    let mut j: usize = 0;
    while j < points
        invariant
            j <= points,
            points >= 2,
            lo < hi,
            span == hi - lo,
            h == bandwidth(lo as int, hi as int),
            heights@.len() == j,
            forall|k: int|
                0 <= k < j ==> #[trigger] heights@[k] == kde_sum(
                    s@,
                    grid_x(lo as int, hi as int, points as int, k),
                    h as int,
                ) as u128,
        decreases points - j,
    {
        assert(span * (j as u128) <= u128::MAX) by (nonlinear_arith)
            requires
                span < 0x1_0000_0000_0000_0000u128,
                j < 0x1_0000_0000_0000_0000u128,
        ;
        let step: u128 = span * (j as u128) / ((points - 1) as u128);
        proof {
            let sp = span as int;
            let jj = j as int;
            let d = points as int - 1;
            assert(sp * jj <= sp * d) by (nonlinear_arith)
                requires
                    0 <= sp,
                    0 <= jj <= d,
            ;
            assert((sp * d) / d == sp) by (nonlinear_arith)
                requires
                    d > 0,
            ;
            assert((sp * jj) / d <= (sp * d) / d) by (nonlinear_arith)
                requires
                    0 <= sp * jj <= sp * d,
                    d > 0,
            ;
        }
        let x: i64 = (lo as i128 + step as i128) as i64;
        heights.push(kde_at(s, x, h));
        j += 1;
    }
    proof {
        assert(heights@ =~= kde_spec(s@, lo as int, hi as int, points as int));
    }
    Some(Profile { heights, width: size, curve: true })
}

} // verus!
