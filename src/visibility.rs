//! Which plots and legends are shown under the active condition.

use vstd::prelude::*;
use crate::axis::{
    axes_view, condition_view, greatest, least, sample_range, AxisView, Samples, SideBinding, Xaxis,
};
use crate::scale::Hsva;
use crate::settings::{lookup_spec, UiState};
use crate::geom::Side;
use crate::gradient::{paint_legend, painted_byte};
use crate::plot::{encodings_view, point_values, Encoding, EncodingView};

verus! {

/// The label of the sentinel condition that shows every condition at once.
pub open spec fn all_label() -> Seq<char> {
    seq!['A', 'L', 'L']
}

/// Whether `s` is the sentinel condition.
pub fn is_all(s: &String) -> (r: bool)
    ensures
        r == (s@ == all_label()),
{
    let all = "ALL".to_owned();
    proof {
        reveal_strlit("ALL");
        assert(all@ =~= all_label());
    }
    *s == all
}

/// Whether data tagged with `cond` is shown while `active` is selected: data
/// without a condition always is; tagged data is when its condition is the
/// active one or the active one is the sentinel.
pub open spec fn shown_under(cond: Option<Seq<char>>, active: Seq<char>) -> bool {
    match cond {
        None => true,
        Some(c) => c == active || active == all_label(),
    }
}

/// Whether data tagged with `cond` is shown while `active` is selected.
pub fn is_shown(cond: &Option<String>, active: &String) -> (r: bool)
    ensures
        r == shown_under(condition_view(*cond), active@),
{
    match cond {
        None => true,
        Some(c) => *c == *active || is_all(active),
    }
}

/// The encoding, shown or hidden as the active condition decides. Untagged
/// side plots and hover popups keep their visibility.
pub open spec fn filtered(e: EncodingView, active: Seq<char>) -> EncodingView {
    if e.popup || e.condition is None {
        e
    } else {
        EncodingView { visible: shown_under(e.condition, active), ..e }
    }
}

/// Hides every rendered side plot tagged with a condition other than the
/// active one (unless the sentinel is active) and shows the other tagged ones.
/// Untagged side plots and hover popups are left as they are.
pub fn filter_histograms(encodings: &mut Vec<Encoding>, active: &String)
    ensures
        encodings_view(final(encodings)@) == encodings_view(old(encodings)@).map_values(
            |e: EncodingView| filtered(e, active@),
        ),
{
    let ghost v0 = encodings_view(encodings@);
    let mut i: usize = 0;
    while i < encodings.len()
        invariant
            0 <= i <= encodings@.len(),
            encodings@.len() == v0.len(),
            forall|k: int| 0 <= k < i ==> #[trigger] encodings@[k]@ == filtered(v0[k], active@),
            forall|k: int| i <= k < v0.len() ==> #[trigger] encodings@[k]@ == v0[k],
        decreases encodings@.len() - i,
    {
        let mut e = encodings.remove(i);
        let ghost before = e@;
        if !e.popup && e.tag.condition.is_some() {
            let shown = is_shown(&e.tag.condition, active);
            e.visible = shown;
            assert(e@ == EncodingView { visible: shown, ..before });
        }
        encodings.insert(i, e);
        i += 1;
    }
    proof {
        assert(encodings_view(encodings@) =~= v0.map_values(|e: EncodingView| filtered(e, active@)));
    }
}

/// A legend's decision: whether it is shown, and the value range of the
/// binding it describes (none when that binding has no values).
#[derive(Clone, Copy, Debug)]
pub struct LegendState {
    pub visible: bool,
    pub range: Option<(i64, i64)>,
}

/// A legend as handed to the interface: whether it is shown, the range its
/// labels give, and, when shown, its image repainted with the color scale.
#[derive(Debug)]
pub struct Legend {
    pub visible: bool,
    pub range: Option<(i64, i64)>,
    pub image: Option<Vec<u8>>,
}

/// A shown legend's image is the given one painted from `c1` to `c2`,
/// keeping its transparent pixels; a hidden legend has none.
pub open spec fn legend_image(img: Option<Vec<u8>>, visible: bool, pixels: Seq<u8>, width: int, c1: Hsva, c2: Hsva) -> bool {
    if visible {
        img matches Some(v) && v@.len() == pixels.len() && forall|k: int|
            0 <= k < v@.len() ==> #[trigger] v@[k] == painted_byte(pixels, width, c1, c2, k)
    } else {
        img is None
    }
}

/// The legend for a decision, its image painted from `c1` to `c2` when shown.
pub(crate) fn finish_legend(st: LegendState, pixels: &Vec<u8>, width: usize, c1: Hsva, c2: Hsva) -> (r: Legend)
    requires
        width > 0,
        pixels@.len() % 4 == 0,
        c1.wf(),
        c2.wf(),
    ensures
        r.visible == st.visible,
        r.range == st.range,
        legend_image(r.image, st.visible, pixels@, width as int, c1, c2),
{
    let image = if st.visible {
        Some(paint_legend(pixels, width, c1, c2))
    } else {
        None
    };
    Legend { visible: st.visible, range: st.range, image }
}

/// The range that a legend shows for a value set.
pub open spec fn range_spec(v: Seq<i64>) -> Option<(i64, i64)> {
    if v.len() == 0 {
        None
    } else {
        Some((least(v), greatest(v)))
    }
}

fn range_of(v: &Vec<i64>) -> (r: Option<(i64, i64)>)
    ensures
        r == range_spec(v@),
{
    if v.len() == 0 {
        None
    } else {
        Some(sample_range(v))
    }
}

/// Whether the side binding `b` feeds the box-and-point legend at `side`
/// while `active` is selected.
pub open spec fn feeds_box_legend(b: SideBinding, side: Side, active: Seq<char>) -> bool {
    !b.popup && b.samples is Point && b.geom.side == side && shown_under(
        condition_view(b.aes.condition),
        active,
    )
}

/// Index of the last binding of the first `n` that feeds the legend, or -1.
pub open spec fn last_box_source(bs: Seq<SideBinding>, side: Side, active: Seq<char>, n: int) -> int
    decreases n,
{
    if n <= 0 {
        -1
    } else if feeds_box_legend(bs[n - 1], side, active) {
        n - 1
    } else {
        last_box_source(bs, side, active, n - 1)
    }
}

/// The box-and-point legend at `side`: shown when some scalar side binding
/// at that side is shown under the active condition, describing the last
/// such binding in binding order.
pub open spec fn box_legend_spec(bs: Seq<SideBinding>, side: Side, active: Seq<char>) -> LegendState {
    let k = last_box_source(bs, side, active, bs.len() as int);
    if k < 0 {
        LegendState { visible: false, range: None }
    } else {
        LegendState { visible: true, range: range_spec(point_values(bs[k])) }
    }
}

fn box_legend(bindings: &Vec<SideBinding>, side: Side, active: &String) -> (r: LegendState)
    ensures
        r == box_legend_spec(bindings@, side, active@),
{
    let mut i: usize = bindings.len();
    while i > 0
        invariant
            0 <= i <= bindings@.len(),
            last_box_source(bindings@, side, active@, bindings@.len() as int)
                == last_box_source(bindings@, side, active@, i as int),
        decreases i,
    {
        let b = &bindings[i - 1];
        if !b.popup && b.geom.side == side && is_shown(&b.aes.condition, active) {
            match &b.samples {
                Samples::Point(v) => {
                    return LegendState { visible: true, range: range_of(v) };
                },
                Samples::Distribution(_) => {},
            }
        }
        i -= 1;
    }
    LegendState { visible: false, range: None }
}

/// The box-and-point legend at `side` under the active condition, its image
/// (rows of `width` RGBA pixels) painted with the reaction color scale.
pub fn color_legend_box(
    bindings: &Vec<SideBinding>,
    side: Side,
    ui: &UiState,
    pixels: &Vec<u8>,
    width: usize,
) -> (r: Legend)
    requires
        ui.wf(),
        width > 0,
        pixels@.len() % 4 == 0,
    ensures
        r.visible == box_legend_spec(bindings@, side, ui.condition@).visible,
        r.range == box_legend_spec(bindings@, side, ui.condition@).range,
        legend_image(r.image, r.visible, pixels@, width as int, ui.min_reaction_color, ui.max_reaction_color),
{
    let st = box_legend(bindings, side, &ui.condition);
    finish_legend(st, pixels, width, ui.min_reaction_color, ui.max_reaction_color)
}

/// The legend of the histograms at one side: whether it is shown, the range
/// of the axis it describes, and the fill color for the active condition.
#[derive(Clone, Copy, Debug)]
pub struct HistLegend {
    pub visible: bool,
    pub range: Option<(i64, i64)>,
    pub color: Hsva,
}

pub open spec fn scaled_on(a: AxisView, side: Side) -> bool {
    !a.fixed && a.side == side
}

/// Index of the first scaled axis at `side`, or -1.
pub open spec fn first_scaled_axis(axes: Seq<AxisView>, side: Side) -> int {
    if exists|i: int| 0 <= i < axes.len() && scaled_on(axes[i], side) {
        choose|i: int|
            0 <= i < axes.len() && scaled_on(axes[i], side) && forall|k: int| 0 <= k < i ==> !scaled_on(axes[k], side)
    } else {
        -1
    }
}

/// Whether some distribution binding draws side plots at `side`.
pub open spec fn has_side_data(bs: Seq<SideBinding>, side: Side) -> bool {
    exists|i: int| 0 <= i < bs.len() && !(#[trigger] bs[i]).popup && bs[i].samples is Distribution && bs[i].geom.side == side
}

/// The histogram legend at `side`: it describes the first scaled axis at that
/// side, and is shown only while some distribution binding draws there.
pub open spec fn hist_legend_spec(axes: Seq<AxisView>, bs: Seq<SideBinding>, side: Side, ui: UiState) -> HistLegend {
    let j = first_scaled_axis(axes, side);
    let color = lookup_spec(ui.side_table(side), ui.condition@);
    if j < 0 {
        HistLegend { visible: false, range: None, color }
    } else {
        HistLegend { visible: has_side_data(bs, side), range: Some((axes[j].lo, axes[j].hi)), color }
    }
}

/// Decides the histogram legend at `side`.
pub fn color_legend_histograms(axes: &Vec<Xaxis>, bindings: &Vec<SideBinding>, side: Side, ui: &UiState) -> (r: HistLegend)
    requires
        ui.wf(),
    ensures
        r == hist_legend_spec(axes_view(axes@), bindings@, side, *ui),
{
    let color = match side {
        Side::Left => ui.color_left.lookup(&ui.condition),
        Side::Right => ui.color_right.lookup(&ui.condition),
        Side::Up => ui.color_top.lookup(&ui.condition),
    };
    let ghost av = axes_view(axes@);
    let mut found = false;
    let mut i: usize = 0;
    while i < bindings.len()
        invariant
            0 <= i <= bindings@.len(),
            found == exists|k: int| 0 <= k < i && !(#[trigger] bindings@[k]).popup && bindings@[k].samples is Distribution && bindings@[k].geom.side == side,
        decreases bindings@.len() - i,
    {
        let b = &bindings[i];
        let d = match &b.samples {
            Samples::Distribution(_) => true,
            Samples::Point(_) => false,
        };
        if !b.popup && d && b.geom.side == side {
            found = true;
        }
        i += 1;
    }
    let mut j: usize = 0;
    while j < axes.len()
        invariant
            0 <= j <= axes@.len(),
            av == axes_view(axes@),
            found == has_side_data(bindings@, side),
            color == lookup_spec(ui.side_table(side), ui.condition@),
            forall|k: int| 0 <= k < j ==> !scaled_on(av[k], side),
        decreases axes@.len() - j,
    {
        if !axes[j].fixed && axes[j].side == side {
            proof {
                assert(scaled_on(av[j as int], side));
                let c = first_scaled_axis(av, side);
                assert(0 <= c < av.len() && scaled_on(av[c], side));
                if c < j {
                    assert(!scaled_on(av[c], side));
                }
                if c > j {
                    assert(!scaled_on(av[j as int], side));
                }
            }
            return HistLegend { visible: found, range: Some(axes[j].xlimits), color };
        }
        j += 1;
    }
    proof {
        assert(!exists|k: int| 0 <= k < av.len() && scaled_on(av[k], side));
    }
    HistLegend { visible: false, range: None, color }
}

} // verus!
