//! Size and color of arrows and metabolite circles, and their color legends.

use vstd::prelude::*;
use crate::axis::{
    condition_view, greatest, index_of, labels, least, position, sample_range, Aesthetics, Samples,
};
use vstd::arithmetic::div_mod::{lemma_div_by_multiple, lemma_div_is_ordered};
use crate::scale::{
    trunc_div, abs_int,
    fraction_of, fraction_spec, lemma_lerp_between, lerp, lerp_hsv, lerp_hsv_spec, lerp_spec, Hsva,
};
use crate::settings::UiState;
use crate::visibility::{finish_legend, is_shown, legend_image, range_spec, shown_under, Legend, LegendState};

verus! {

/// Width of an arrow that a size binding does not cover.
pub const ARROW_WIDTH: i64 = 10;

/// Radius of a metabolite circle that a size binding does not cover.
pub const METABOLITE_RADIUS: i64 = 20;

/// Light grey, for elements that a color binding does not cover.
pub open spec fn unset_color() -> Hsva {
    Hsva { h: 0, s: 0, v: 850, a: 1000 }
}

/// The visual property that a binding drives.
#[derive(Clone, Copy, Debug, PartialEq, Eq, Structural)]
pub enum Channel {
    Size,
    Color,
    Y,
}

/// The kind of element that a binding is drawn on.
#[derive(Clone, Copy, Debug, PartialEq, Eq, Structural)]
pub enum GeomKind {
    Arrow,
    Metabolite,
}

/// A binding that drives the size or color of arrows or metabolite circles.
pub struct ChannelBinding {
    pub aes: Aesthetics,
    pub samples: Samples,
    pub channel: Channel,
    pub geom: GeomKind,
}

pub open spec fn values_of(b: ChannelBinding) -> Seq<i64> {
    match b.samples {
        Samples::Point(v) => v@,
        Samples::Distribution(_) => Seq::empty(),
    }
}

/// The size of the element `target`: its value mapped from the binding's own
/// range onto `[x, y]`, or `default` when the binding has no value for it.
pub open spec fn size_at(vals: Seq<i64>, ids: Seq<Seq<char>>, target: Seq<char>, x: i64, y: i64, default: i64) -> i64 {
    let k = index_of(ids, target);
    if 0 <= k < vals.len() {
        lerp_spec(vals[k] as int, least(vals) as int, greatest(vals) as int, x as int, y as int) as i64
    } else {
        default
    }
}

/// The color of the element `target`: where its value stands within the
/// binding's own range, between `c1` and `c2`; light grey when the binding has
/// no value for it.
pub open spec fn color_at(vals: Seq<i64>, ids: Seq<Seq<char>>, target: Seq<char>, c1: Hsva, c2: Hsva) -> Hsva {
    let k = index_of(ids, target);
    if 0 <= k < vals.len() {
        lerp_hsv_spec(fraction_spec(vals[k] as int, least(vals) as int, greatest(vals) as int), c1, c2)
    } else {
        unset_color()
    }
}

fn sizes_for(vals: &Vec<i64>, ids: &Vec<String>, targets: &Vec<String>, x: i64, y: i64, default: i64) -> (r: Vec<i64>)
    ensures
        r@.len() == targets@.len(),
        forall|j: int| 0 <= j < targets@.len() ==> #[trigger] r@[j] == size_at(vals@, labels(ids@), targets@[j]@, x, y, default),
{
    let mut out: Vec<i64> = Vec::new();
    let mut j: usize = 0;
    while j < targets.len()
        invariant
            0 <= j <= targets@.len(),
            out@.len() == j,
            forall|i: int| 0 <= i < j ==> #[trigger] out@[i] == size_at(vals@, labels(ids@), targets@[i]@, x, y, default),
        decreases targets@.len() - j,
    {
        let w = match position(ids, &targets[j]) {
            Some(k) => if k < vals.len() {
                let (lo, hi) = sample_range(vals);
                proof {
                    lemma_lerp_between(vals@[k as int] as int, lo as int, hi as int, x as int, y as int);
                }
                lerp(vals[k], lo, hi, x, y)
            } else {
                default
            },
            None => default,
        };
        out.push(w);
        j += 1;
    }
    out
}

fn colors_for(vals: &Vec<i64>, ids: &Vec<String>, targets: &Vec<String>, c1: Hsva, c2: Hsva) -> (r: Vec<Hsva>)
    requires
        c1.wf(),
        c2.wf(),
    ensures
        r@.len() == targets@.len(),
        forall|j: int| 0 <= j < targets@.len() ==> #[trigger] r@[j] == color_at(vals@, labels(ids@), targets@[j]@, c1, c2),
{
    let mut out: Vec<Hsva> = Vec::new();
    let mut j: usize = 0;
    while j < targets.len()
        invariant
            0 <= j <= targets@.len(),
            c1.wf(),
            c2.wf(),
            out@.len() == j,
            forall|i: int| 0 <= i < j ==> #[trigger] out@[i] == color_at(vals@, labels(ids@), targets@[i]@, c1, c2),
        decreases targets@.len() - j,
    {
        let c = match position(ids, &targets[j]) {
            Some(k) => if k < vals.len() {
                let (lo, hi) = sample_range(vals);
                lerp_hsv(fraction_of(vals[k], lo, hi), c1, c2)
            } else {
                Hsva { h: 0, s: 0, v: 850, a: 1000 }
            },
            None => Hsva { h: 0, s: 0, v: 850, a: 1000 },
        };
        out.push(c);
        j += 1;
    }
    out
}

/// Whether a binding tagged `cond` is drawn on the elements while `active`
/// is selected: untagged data always, tagged data only for its condition.
pub open spec fn drawn_under(cond: Option<Seq<char>>, active: Seq<char>) -> bool {
    match cond {
        None => true,
        Some(c) => c == active,
    }
}

fn is_drawn(cond: &Option<String>, active: &String) -> (r: bool)
    ensures
        r == drawn_under(condition_view(*cond), active@),
{
    match cond {
        None => true,
        Some(c) => *c == *active,
    }
}

pub open spec fn drives(b: ChannelBinding, channel: Channel, geom: GeomKind) -> bool {
    b.channel == channel && b.geom == geom && b.samples is Point
}

/// Widths of the arrows `targets` under a scalar size binding for the active
/// condition, between the configured minimum and maximum widths; none when
/// the binding is not an arrow size binding or is tagged with another
/// condition.
pub fn plot_arrow_size(b: &ChannelBinding, targets: &Vec<String>, ui: &UiState) -> (r: Option<Vec<i64>>)
    ensures
        r is Some <==> drives(*b, Channel::Size, GeomKind::Arrow) && drawn_under(condition_view(b.aes.condition), ui.condition@),
        r matches Some(w) ==> w@.len() == targets@.len() && forall|j: int| 0 <= j < targets@.len() ==> #[trigger] w@[j] == size_at(
            values_of(*b),
            labels(b.aes.identifiers@),
            targets@[j]@,
            ui.min_reaction,
            ui.max_reaction,
            ARROW_WIDTH,
        ),
{
    if b.channel != Channel::Size || b.geom != GeomKind::Arrow || !is_drawn(&b.aes.condition, &ui.condition) {
        return None;
    }
    match &b.samples {
        Samples::Point(v) => Some(sizes_for(v, &b.aes.identifiers, targets, ui.min_reaction, ui.max_reaction, ARROW_WIDTH)),
        Samples::Distribution(_) => None,
    }
}

/// Colors of the arrows `targets` under a scalar color binding for the
/// active condition; none when the binding is not an arrow color binding or
/// is tagged with another condition.
pub fn plot_arrow_color(b: &ChannelBinding, targets: &Vec<String>, ui: &UiState) -> (r: Option<Vec<Hsva>>)
    requires
        ui.wf(),
    ensures
        r is Some <==> drives(*b, Channel::Color, GeomKind::Arrow) && drawn_under(condition_view(b.aes.condition), ui.condition@),
        r matches Some(c) ==> c@.len() == targets@.len() && forall|j: int| 0 <= j < targets@.len() ==> #[trigger] c@[j] == color_at(
            values_of(*b),
            labels(b.aes.identifiers@),
            targets@[j]@,
            ui.min_reaction_color,
            ui.max_reaction_color,
        ),
{
    if b.channel != Channel::Color || b.geom != GeomKind::Arrow || !is_drawn(&b.aes.condition, &ui.condition) {
        return None;
    }
    match &b.samples {
        Samples::Point(v) => Some(colors_for(v, &b.aes.identifiers, targets, ui.min_reaction_color, ui.max_reaction_color)),
        Samples::Distribution(_) => None,
    }
}

/// Radii of the metabolite circles `targets` under a scalar size binding,
/// between the configured minimum and maximum radii; none when the binding
/// is not a metabolite size binding.
pub fn plot_metabolite_size(b: &ChannelBinding, targets: &Vec<String>, ui: &UiState) -> (r: Option<Vec<i64>>)
    ensures
        r is Some <==> drives(*b, Channel::Size, GeomKind::Metabolite),
        r matches Some(w) ==> w@.len() == targets@.len() && forall|j: int| 0 <= j < targets@.len() ==> #[trigger] w@[j] == size_at(
            values_of(*b),
            labels(b.aes.identifiers@),
            targets@[j]@,
            ui.min_metabolite,
            ui.max_metabolite,
            METABOLITE_RADIUS,
        ),
{
    if b.channel != Channel::Size || b.geom != GeomKind::Metabolite {
        return None;
    }
    match &b.samples {
        Samples::Point(v) => Some(sizes_for(v, &b.aes.identifiers, targets, ui.min_metabolite, ui.max_metabolite, METABOLITE_RADIUS)),
        Samples::Distribution(_) => None,
    }
}

/// Colors of the metabolite circles `targets` under a scalar color binding;
/// none when the binding is not a metabolite color binding.
pub fn plot_metabolite_color(b: &ChannelBinding, targets: &Vec<String>, ui: &UiState) -> (r: Option<Vec<Hsva>>)
    requires
        ui.wf(),
    ensures
        r is Some <==> drives(*b, Channel::Color, GeomKind::Metabolite),
        r matches Some(c) ==> c@.len() == targets@.len() && forall|j: int| 0 <= j < targets@.len() ==> #[trigger] c@[j] == color_at(
            values_of(*b),
            labels(b.aes.identifiers@),
            targets@[j]@,
            ui.min_metabolite_color,
            ui.max_metabolite_color,
        ),
{
    if b.channel != Channel::Color || b.geom != GeomKind::Metabolite {
        return None;
    }
    match &b.samples {
        Samples::Point(v) => Some(colors_for(v, &b.aes.identifiers, targets, ui.min_metabolite_color, ui.max_metabolite_color)),
        Samples::Distribution(_) => None,
    }
}

/// Whether `b` feeds the color legend of `geom` while `active` is selected.
pub open spec fn feeds_color_legend(b: ChannelBinding, geom: GeomKind, active: Seq<char>) -> bool {
    drives(b, Channel::Color, geom) && shown_under(condition_view(b.aes.condition), active)
}

/// Index of the last of the first `n` bindings that feeds the legend, or -1.
pub open spec fn last_color_source(bs: Seq<ChannelBinding>, geom: GeomKind, active: Seq<char>, n: int) -> int
    decreases n,
{
    if n <= 0 {
        -1
    } else if feeds_color_legend(bs[n - 1], geom, active) {
        n - 1
    } else {
        last_color_source(bs, geom, active, n - 1)
    }
}

/// The color legend of `geom`: shown when some color binding of that kind is
/// shown under the active condition, describing the last such binding in
/// binding order.
pub open spec fn color_legend_spec(bs: Seq<ChannelBinding>, geom: GeomKind, active: Seq<char>) -> LegendState {
    let k = last_color_source(bs, geom, active, bs.len() as int);
    if k < 0 {
        LegendState { visible: false, range: None }
    } else {
        LegendState { visible: true, range: range_spec(values_of(bs[k])) }
    }
}

fn color_legend(bindings: &Vec<ChannelBinding>, geom: GeomKind, active: &String) -> (r: LegendState)
    ensures
        r == color_legend_spec(bindings@, geom, active@),
{
    let mut i: usize = bindings.len();
    while i > 0
        invariant
            0 <= i <= bindings@.len(),
            last_color_source(bindings@, geom, active@, bindings@.len() as int)
                == last_color_source(bindings@, geom, active@, i as int),
        decreases i,
    {
        let b = &bindings[i - 1];
        if b.channel == Channel::Color && b.geom == geom && is_shown(&b.aes.condition, active) {
            match &b.samples {
                Samples::Point(v) => {
                    let range = if v.len() == 0 {
                        None
                    } else {
                        Some(sample_range(v))
                    };
                    return LegendState { visible: true, range };
                },
                Samples::Distribution(_) => {},
            }
        }
        i -= 1;
    }
    LegendState { visible: false, range: None }
}

/// The color legend of the arrows under the active condition, its image
/// (rows of `width` RGBA pixels) painted with the reaction color scale.
pub fn color_legend_arrow(bindings: &Vec<ChannelBinding>, ui: &UiState, pixels: &Vec<u8>, width: usize) -> (r: Legend)
    requires
        ui.wf(),
        width > 0,
        pixels@.len() % 4 == 0,
    ensures
        r.visible == color_legend_spec(bindings@, GeomKind::Arrow, ui.condition@).visible,
        r.range == color_legend_spec(bindings@, GeomKind::Arrow, ui.condition@).range,
        legend_image(r.image, r.visible, pixels@, width as int, ui.min_reaction_color, ui.max_reaction_color),
{
    let st = color_legend(bindings, GeomKind::Arrow, &ui.condition);
    finish_legend(st, pixels, width, ui.min_reaction_color, ui.max_reaction_color)
}

/// The color legend of the metabolite circles under the active condition,
/// its image (rows of `width` RGBA pixels) painted with the metabolite color
/// scale.
pub fn color_legend_circle(bindings: &Vec<ChannelBinding>, ui: &UiState, pixels: &Vec<u8>, width: usize) -> (r: Legend)
    requires
        ui.wf(),
        width > 0,
        pixels@.len() % 4 == 0,
    ensures
        r.visible == color_legend_spec(bindings@, GeomKind::Metabolite, ui.condition@).visible,
        r.range == color_legend_spec(bindings@, GeomKind::Metabolite, ui.condition@).range,
        legend_image(r.image, r.visible, pixels@, width as int, ui.min_metabolite_color, ui.max_metabolite_color),
{
    let st = color_legend(bindings, GeomKind::Metabolite, &ui.condition);
    finish_legend(st, pixels, width, ui.min_metabolite_color, ui.max_metabolite_color)
}

/// Sum of the samples.
pub open spec fn sum_spec(s: Seq<i64>) -> int
    decreases s.len(),
{
    if s.len() == 0 {
        0
    } else {
        sum_spec(s.drop_last()) + s.last()
    }
}

/// Mean of a non-empty sample set, rounded toward zero.
pub open spec fn mean_spec(s: Seq<i64>) -> int {
    trunc_div(sum_spec(s), s.len() as int)
}

proof fn lemma_mean_between(acc: int, n: int, lo: int, hi: int)
    requires
        n > 0,
        lo * n <= acc <= hi * n,
    ensures
        lo <= trunc_div(acc, n) <= hi,
{
    if acc >= 0 {
        assert(abs_int(acc) == acc);
        lemma_div_is_ordered(0, acc, n);
        if lo > 0 {
            lemma_div_is_ordered(lo * n, acc, n);
            lemma_div_by_multiple(lo, n);
        }
        assert(hi >= 0) by (nonlinear_arith)
            requires
                acc >= 0,
                acc <= hi * n,
                n > 0,
        ;
        lemma_div_is_ordered(acc, hi * n, n);
        lemma_div_by_multiple(hi, n);
    } else {
        assert(lo < 0) by (nonlinear_arith)
            requires
                acc < 0,
                lo * n <= acc,
                n > 0,
        ;
        assert(-acc <= (-lo) * n) by (nonlinear_arith)
            requires
                lo * n <= acc,
        ;
        lemma_div_is_ordered(-acc, (-lo) * n, n);
        lemma_div_by_multiple(-lo, n);
        lemma_div_is_ordered(0, -acc, n);
        if hi < 0 {
            assert((-hi) * n <= -acc) by (nonlinear_arith)
                requires
                    acc <= hi * n,
            ;
            lemma_div_is_ordered((-hi) * n, -acc, n);
            lemma_div_by_multiple(-hi, n);
        }
    }
}

/// The mean of a non-empty sample set, which lies within any bounds of its samples.
pub fn mean(s: &Vec<i64>, lo: i64, hi: i64) -> (r: i64)
    requires
        s@.len() > 0,
        forall|i: int| 0 <= i < s@.len() ==> lo <= #[trigger] s@[i] <= hi,
    ensures
        r == mean_spec(s@),
        lo <= r <= hi,
{
    let mut acc: i128 = 0;
    let mut i: usize = 0;
    while i < s.len()
        invariant
            0 <= i <= s@.len(),
            forall|k: int| 0 <= k < s@.len() ==> lo <= #[trigger] s@[k] <= hi,
            acc == sum_spec(s@.take(i as int)),
            (lo as int) * (i as int) <= acc <= (hi as int) * (i as int),
        decreases s@.len() - i,
    {
        proof {
            assert(s@.take(i as int + 1).drop_last() =~= s@.take(i as int));
            assert((lo as int) * (i as int) + lo == (lo as int) * (i as int + 1)) by (nonlinear_arith);
            assert((hi as int) * (i as int) + hi == (hi as int) * (i as int + 1)) by (nonlinear_arith);
            assert(-0x8000_0000_0000_0000_0000_0000_0000_0000 < (lo as int) * (i as int + 1)) by (nonlinear_arith)
                requires
                    lo >= -0x8000_0000_0000_0000,
                    0 <= i < 0xffff_ffff_ffff_ffff,
            ;
            assert((hi as int) * (i as int + 1) < 0x7fff_ffff_ffff_ffff_ffff_ffff_ffff_ffff) by (nonlinear_arith)
                requires
                    hi < 0x8000_0000_0000_0000,
                    0 <= i < 0xffff_ffff_ffff_ffff,
            ;
        }
        acc = acc + s[i] as i128;
        i += 1;
    }
    proof {
        assert(s@.take(s@.len() as int) =~= s@);
        lemma_mean_between(acc as int, s@.len() as int, lo as int, hi as int);
    }
    let len = s.len();
    assert(acc > -0x8000_0000_0000_0000_0000_0000_0000_0000) by (nonlinear_arith)
        requires
            (lo as int) * (len as int) <= acc,
            lo >= -0x8000_0000_0000_0000,
            0 <= len <= 0xffff_ffff_ffff_ffff,
    ;
    let n: u128 = s.len() as u128;
    let mag: u128 = if acc < 0 { (-acc) as u128 } else { acc as u128 };
    let q: u128 = mag / n;
    if acc < 0 {
        -(q as i128) as i64
    } else {
        q as i64
    }
}

pub open spec fn nested(d: Seq<Vec<i64>>) -> Seq<Seq<i64>> {
    d.map_values(|v: Vec<i64>| v@)
}

pub open spec fn dist_of(b: ChannelBinding) -> Seq<Seq<i64>> {
    match b.samples {
        Samples::Distribution(d) => nested(d@),
        Samples::Point(_) => Seq::empty(),
    }
}

/// Whether `m` is a sample of some set.
pub open spec fn in_some(d: Seq<Seq<i64>>, m: i64) -> bool {
    exists|i: int| 0 <= i < d.len() && (#[trigger] d[i]).contains(m)
}

pub open spec fn below_all(d: Seq<Seq<i64>>, m: i64) -> bool {
    forall|i: int, j: int| 0 <= i < d.len() && 0 <= j < d[i].len() ==> m <= #[trigger] d[i][j]
}

pub open spec fn above_all(d: Seq<Seq<i64>>, m: i64) -> bool {
    forall|i: int, j: int| 0 <= i < d.len() && 0 <= j < d[i].len() ==> #[trigger] d[i][j] <= m
}

/// Smallest sample over all the sets.
pub open spec fn all_least(d: Seq<Seq<i64>>) -> i64 {
    choose|m: i64| in_some(d, m) && below_all(d, m)
}

/// Largest sample over all the sets.
pub open spec fn all_greatest(d: Seq<Seq<i64>>) -> i64 {
    choose|m: i64| in_some(d, m) && above_all(d, m)
}

proof fn lemma_all_least(d: Seq<Seq<i64>>, m: i64)
    requires
        in_some(d, m),
        below_all(d, m),
    ensures
        all_least(d) == m,
{
    let c = all_least(d);
    assert(in_some(d, c) && below_all(d, c));
    let i1 = choose|i: int| 0 <= i < d.len() && (#[trigger] d[i]).contains(c);
    let j1 = choose|j: int| 0 <= j < d[i1].len() && d[i1][j] == c;
    let i2 = choose|i: int| 0 <= i < d.len() && (#[trigger] d[i]).contains(m);
    let j2 = choose|j: int| 0 <= j < d[i2].len() && d[i2][j] == m;
    assert(m <= d[i1][j1] && c <= d[i2][j2]);
}

proof fn lemma_all_greatest(d: Seq<Seq<i64>>, m: i64)
    requires
        in_some(d, m),
        above_all(d, m),
    ensures
        all_greatest(d) == m,
{
    let c = all_greatest(d);
    assert(in_some(d, c) && above_all(d, c));
    let i1 = choose|i: int| 0 <= i < d.len() && (#[trigger] d[i]).contains(c);
    let j1 = choose|j: int| 0 <= j < d[i1].len() && d[i1][j] == c;
    let i2 = choose|i: int| 0 <= i < d.len() && (#[trigger] d[i]).contains(m);
    let j2 = choose|j: int| 0 <= j < d[i2].len() && d[i2][j] == m;
    assert(d[i1][j1] <= m && d[i2][j2] <= c);
}

/// Smallest and largest sample over all the sets; none when all are empty.
pub fn dist_range(d: &Vec<Vec<i64>>) -> (r: Option<(i64, i64)>)
    ensures
        r is None <==> forall|i: int| 0 <= i < d@.len() ==> (#[trigger] d@[i])@.len() == 0,
        r matches Some(p) ==> p.0 == all_least(nested(d@)) && p.1 == all_greatest(nested(d@))
            && below_all(nested(d@), p.0) && above_all(nested(d@), p.1),
{
    let ghost nd = nested(d@);
    let mut r: Option<(i64, i64)> = None;
    let mut i: usize = 0;
    while i < d.len()
        invariant
            0 <= i <= d@.len(),
            nd == nested(d@),
            r is None <==> forall|k: int| 0 <= k < i ==> (#[trigger] d@[k])@.len() == 0,
            r matches Some(p) ==> in_some(nd, p.0) && in_some(nd, p.1)
                && (forall|a: int, b: int| 0 <= a < i && 0 <= b < nd[a].len() ==> p.0 <= #[trigger] nd[a][b] <= p.1),
        decreases d@.len() - i,
    {
        let v = &d[i];
        assert(nd[i as int] == v@);
        if v.len() > 0 {
            let (lo, hi) = sample_range(v);
            let (nlo, nhi) = match r {
                Some((a, b)) => (if lo < a { lo } else { a }, if hi > b { hi } else { b }),
                None => (lo, hi),
            };
            proof {
                assert(nd[i as int].contains(lo) && nd[i as int].contains(hi));
                assert(in_some(nd, nlo) && in_some(nd, nhi));
            }
            r = Some((nlo, nhi));
        }
        i += 1;
    }
    proof {
        if let Some(p) = r {
            lemma_all_least(nd, p.0);
            lemma_all_greatest(nd, p.1);
        }
    }
    r
}

/// The width of the arrow `target` under a distribution size binding: the
/// mean of its samples mapped from the range of all the binding's samples
/// onto `[x, y]`, or `default` when the binding has no samples for it.
pub open spec fn size_dist_at(d: Seq<Seq<i64>>, ids: Seq<Seq<char>>, target: Seq<char>, x: i64, y: i64, default: i64) -> i64 {
    let k = index_of(ids, target);
    if 0 <= k < d.len() && d[k].len() > 0 {
        lerp_spec(mean_spec(d[k]), all_least(d) as int, all_greatest(d) as int, x as int, y as int) as i64
    } else {
        default
    }
}

pub open spec fn drives_dist(b: ChannelBinding, channel: Channel, geom: GeomKind) -> bool {
    b.channel == channel && b.geom == geom && b.samples is Distribution
}

/// Widths of the arrows `targets` under a distribution size binding for the
/// active condition, each sample set summarized by its mean; none when the
/// binding is not such a binding or is tagged with another condition.
pub fn plot_arrow_size_dist(b: &ChannelBinding, targets: &Vec<String>, ui: &UiState) -> (r: Option<Vec<i64>>)
    ensures
        r is Some <==> drives_dist(*b, Channel::Size, GeomKind::Arrow) && drawn_under(condition_view(b.aes.condition), ui.condition@),
        r matches Some(w) ==> w@.len() == targets@.len() && forall|j: int| 0 <= j < targets@.len() ==> #[trigger] w@[j] == size_dist_at(
            dist_of(*b),
            labels(b.aes.identifiers@),
            targets@[j]@,
            ui.min_reaction,
            ui.max_reaction,
            ARROW_WIDTH,
        ),
{
    if b.channel != Channel::Size || b.geom != GeomKind::Arrow || !is_drawn(&b.aes.condition, &ui.condition) {
        return None;
    }
    let d = match &b.samples {
        Samples::Distribution(d) => d,
        Samples::Point(_) => {
            return None;
        },
    };
    let ghost nd = nested(d@);
    let range = dist_range(d);
    let (x, y) = (ui.min_reaction, ui.max_reaction);
    let mut out: Vec<i64> = Vec::new();
    let mut j: usize = 0;
    while j < targets.len()
        invariant
            0 <= j <= targets@.len(),
            nd == nested(d@),
            nd == dist_of(*b),
            range is None <==> forall|i: int| 0 <= i < d@.len() ==> (#[trigger] d@[i])@.len() == 0,
            range matches Some(p) ==> p.0 == all_least(nd) && p.1 == all_greatest(nd) && below_all(nd, p.0) && above_all(nd, p.1),
            out@.len() == j,
            forall|i: int| 0 <= i < j ==> #[trigger] out@[i] == size_dist_at(nd, labels(b.aes.identifiers@), targets@[i]@, x, y, ARROW_WIDTH),
        decreases targets@.len() - j,
    {
        let w = match position(&b.aes.identifiers, &targets[j]) {
            Some(k) => if k < d.len() && d[k].len() > 0 {
                assert(nd[k as int] == d@[k as int]@);
                match range {
                    Some((lo, hi)) => {
                        let m = mean(&d[k], lo, hi);
                        proof {
                            lemma_lerp_between(m as int, lo as int, hi as int, x as int, y as int);
                        }
                        lerp(m, lo, hi, x, y)
                    },
                    None => ARROW_WIDTH,
                }
            } else {
                ARROW_WIDTH
            },
            None => ARROW_WIDTH,
        };
        out.push(w);
        j += 1;
    }
    Some(out)
}

} // verus!
