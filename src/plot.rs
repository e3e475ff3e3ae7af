//! Rendered side plots: profiles and box-and-point glyphs drawn on shared axes.

use vstd::prelude::*;
use crate::axis::{
    axes_view, clone_condition, condition_view, greatest, index_of, labels, least, sample_range,
    samples_for, Anchor, AxisView, Samples, SideBinding, Xaxis,
};
use crate::geom::{HistPlot, HistTag, Side, Stage};
use crate::render::{hist_spec, kde_spec, plot_hist, plot_kde, Profile, KDE_POINTS, SIDE_BINS};
use crate::scale::{
    fraction_of, fraction_spec, lemma_lerp_between, lerp, lerp_hsv, lerp_hsv_spec, lerp_spec, Hsva,
};
use crate::settings::{key_of, lookup_spec, UiState};

verus! {

/// A nonnegative ratio `num / den`.
#[derive(Clone, Copy, Debug, PartialEq, Eq, Structural)]
pub struct Ratio {
    pub num: u128,
    pub den: u128,
}

pub open spec fn unit_ratio() -> Ratio {
    Ratio { num: 1, den: 1 }
}

/// A box-and-point glyph in slot `slot` of `slots` side-by-side slots,
/// `height` map units tall.
#[derive(Clone, Copy, Debug, PartialEq, Eq, Structural)]
pub struct BoxGlyph {
    pub slot: u64,
    pub slots: u64,
    pub height: i64,
}

/// The geometry of a rendered encoding.
pub enum Shape {
    Profile(Profile),
    Box(BoxGlyph),
}

/// A rendered side plot: geometry, tags, anchor and fill color, whether it is
/// kept out of height normalization, its vertical scale and that of its
/// labels, whether it is shown, and whether it is a hover popup (whose
/// visibility follows the cursor rather than the active condition).
pub struct Encoding {
    pub shape: Shape,
    pub tag: HistTag,
    pub anchor: Anchor,
    pub color: Hsva,
    pub fixed: bool,
    pub scale_y: Ratio,
    pub label_scale_y: Ratio,
    pub visible: bool,
    pub popup: bool,
}

pub enum ShapeView {
    Profile { heights: Seq<u128>, width: u64, curve: bool },
    Box { slot: u64, slots: u64, height: i64 },
}

/// What an encoding holds, over plain values.
pub struct EncodingView {
    pub shape: ShapeView,
    pub side: Side,
    pub condition: Option<Seq<char>>,
    pub node_id: u64,
    pub anchor: Anchor,
    pub color: Hsva,
    pub fixed: bool,
    pub scale_y: Ratio,
    pub label_scale_y: Ratio,
    pub visible: bool,
    pub popup: bool,
}

impl View for Encoding {
    type V = EncodingView;

    open spec fn view(&self) -> EncodingView {
        EncodingView {
            shape: match self.shape {
                Shape::Profile(p) => ShapeView::Profile {
                    heights: p.heights@,
                    width: p.width,
                    curve: p.curve,
                },
                Shape::Box(g) => ShapeView::Box { slot: g.slot, slots: g.slots, height: g.height },
            },
            side: self.tag.side,
            condition: condition_view(self.tag.condition),
            node_id: self.tag.node_id,
            anchor: self.anchor,
            color: self.color,
            fixed: self.fixed,
            scale_y: self.scale_y,
            label_scale_y: self.label_scale_y,
            visible: self.visible,
            popup: self.popup,
        }
    }
}

pub open spec fn encodings_view(v: Seq<Encoding>) -> Seq<EncodingView> {
    v.map_values(|e: Encoding| e@)
}

/// Whether axis `a` carries a profile of binding `b`.
pub open spec fn concerns(b: SideBinding, a: AxisView) -> bool {
    !a.fixed && hits(b, a)
}

/// Whether axis `a`, of either kind, stands at the side of `b` for an
/// element that `b` has a sample set for.
pub open spec fn hits(b: SideBinding, a: AxisView) -> bool {
    a.side == b.geom.side && samples_for(b, a.id) is Some
}

/// The profile that `b` draws on `a`; none for an empty sample set, a
/// degenerate range, or a box-and-point request against a distribution.
pub open spec fn profile_spec(b: SideBinding, a: AxisView) -> Option<ShapeView> {
    let s = samples_for(b, a.id).unwrap();
    if s.len() == 0 || a.lo >= a.hi {
        None
    } else {
        match b.geom.plot {
            HistPlot::Hist => Some(
                ShapeView::Profile {
                    heights: hist_spec(s, a.lo as int, a.hi as int, SIDE_BINS as int),
                    width: a.arrow_size,
                    curve: false,
                },
            ),
            HistPlot::Kde => Some(
                ShapeView::Profile {
                    heights: kde_spec(s, a.lo as int, a.hi as int, KDE_POINTS as int),
                    width: a.arrow_size,
                    curve: true,
                },
            ),
            HistPlot::BoxPoint => None,
        }
    }
}

/// Whether `b` has samples for every axis at its side that holds one of its
/// elements, and every scaled one of them gets geometry from it.
pub open spec fn ready(b: SideBinding, axes: Seq<AxisView>) -> bool {
    forall|j: int|
        0 <= j < axes.len() && hits(b, #[trigger] axes[j]) ==> samples_for(b, axes[j].id).unwrap().len() > 0 && (
        concerns(b, axes[j]) ==> profile_spec(b, axes[j]) is Some)
}

pub open spec fn profile_encoding(b: SideBinding, a: AxisView, ui: UiState) -> EncodingView {
    EncodingView {
        shape: profile_spec(b, a).unwrap(),
        side: a.side,
        condition: condition_view(b.aes.condition),
        node_id: a.node_id,
        anchor: a.anchor,
        color: lookup_spec(ui.side_table(a.side), key_of(b.aes.condition)),
        fixed: false,
        scale_y: unit_ratio(),
        label_scale_y: unit_ratio(),
        visible: true,
        popup: false,
    }
}

/// The profiles of `b` on the first `m` axes, in axis order.
pub open spec fn profiles_of(b: SideBinding, axes: Seq<AxisView>, ui: UiState, m: int) -> Seq<EncodingView>
    decreases m,
{
    if m <= 0 {
        Seq::empty()
    } else {
        let prev = profiles_of(b, axes, ui, m - 1);
        if concerns(b, axes[m - 1]) {
            prev.push(profile_encoding(b, axes[m - 1], ui))
        } else {
            prev
        }
    }
}

pub open spec fn profile_eligible(b: SideBinding, st: Stage) -> bool {
    !b.popup && st == Stage::Aggregated && b.samples is Distribution
}

/// Whether the profile pass renders `b`.
pub open spec fn profile_renders(b: SideBinding, st: Stage, axes: Seq<AxisView>) -> bool {
    profile_eligible(b, st) && ready(b, axes)
}

/// Every profile of the first `n` bindings that the pass renders.
pub open spec fn all_profiles(
    bs: Seq<SideBinding>,
    sts: Seq<Stage>,
    axes: Seq<AxisView>,
    ui: UiState,
    n: int,
) -> Seq<EncodingView>
    decreases n,
{
    if n <= 0 {
        Seq::empty()
    } else {
        let prev = all_profiles(bs, sts, axes, ui, n - 1);
        if profile_renders(bs[n - 1], sts[n - 1], axes) {
            prev + profiles_of(bs[n - 1], axes, ui, axes.len() as int)
        } else {
            prev
        }
    }
}

/// The sample set that `b` gives the element of `a`, if `a` stands at the side of `b`.
fn profile_samples<'a>(b: &'a SideBinding, a: &Xaxis) -> (r: Option<&'a Vec<i64>>)
    ensures
        r is Some <==> hits(*b, a@),
        r matches Some(s) ==> samples_for(*b, a@.id) == Some(s@),
{
    if a.side != b.geom.side {
        return None;
    }
    match &b.samples {
        Samples::Distribution(d) => match crate::axis::position(&b.aes.identifiers, &a.id) {
            Some(k) => if k < d.len() {
                Some(&d[k])
            } else {
                None
            },
            None => None,
        },
        Samples::Point(_) => None,
    }
}

/// The profile of `b` on `a`, or none when it cannot be drawn.
fn draw_profile(b: &SideBinding, a: &Xaxis, s: &Vec<i64>) -> (r: Option<Shape>)
    requires
        concerns(*b, a@),
        samples_for(*b, a@.id) == Some(s@),
    ensures
        r is Some <==> profile_spec(*b, a@) is Some,
        r matches Some(sh) ==> profile_spec(*b, a@) == Some(
            match sh {
                Shape::Profile(p) => ShapeView::Profile { heights: p.heights@, width: p.width, curve: p.curve },
                Shape::Box(g) => ShapeView::Box { slot: g.slot, slots: g.slots, height: g.height },
            },
        ),
{
    let p = match b.geom.plot {
        HistPlot::Hist => plot_hist(s, SIDE_BINS, a.arrow_size, a.xlimits),
        HistPlot::Kde => plot_kde(s, KDE_POINTS, a.arrow_size, a.xlimits),
        HistPlot::BoxPoint => None,
    };
    match p {
        Some(p) => Some(Shape::Profile(p)),
        None => None,
    }
}

proof fn lemma_view_push(s: Seq<Encoding>, e: Encoding)
    ensures
        encodings_view(s.push(e)) == encodings_view(s).push(e@),
{
    assert(encodings_view(s.push(e)) =~= encodings_view(s).push(e@));
}

proof fn lemma_view_concat(s: Seq<Encoding>, t: Seq<Encoding>)
    ensures
        encodings_view(s + t) == encodings_view(s) + encodings_view(t),
{
    assert(encodings_view(s + t) =~= encodings_view(s) + encodings_view(t));
}

/// The profile of `b` on `a`: an error when `a` stands at the side of `b` for
/// an element with no samples, or is a scaled axis on which the profile
/// cannot be drawn; nothing when `a` carries no profile of `b`.
fn profile_on(b: &SideBinding, a: &Xaxis, ui: &UiState) -> (r: Result<Option<Encoding>, ()>)
    requires
        ui.wf(),
    ensures
        r is Err <==> hits(*b, a@) && !(samples_for(*b, a@.id).unwrap().len() > 0 && (concerns(*b, a@)
            ==> profile_spec(*b, a@) is Some)),
        r matches Ok(o) ==> (o is Some <==> concerns(*b, a@)),
        r matches Ok(Some(e)) ==> e@ == profile_encoding(*b, a@, *ui),
{
    match profile_samples(b, a) {
        Some(smp) => if smp.len() == 0 {
            Err(())
        } else if a.fixed {
            Ok(None)
        } else {
            match draw_profile(b, a, smp) {
                Some(shape) => {
                    let color = ui.side_color(a.side, &b.aes.condition);
                    Ok(
                        Some(
                            Encoding {
                                shape,
                                tag: HistTag {
                                    side: a.side,
                                    condition: clone_condition(&b.aes.condition),
                                    node_id: a.node_id,
                                },
                                anchor: a.anchor,
                                color,
                                fixed: false,
                                scale_y: Ratio { num: 1, den: 1 },
                                label_scale_y: Ratio { num: 1, den: 1 },
                                visible: true,
                                popup: false,
                            },
                        ),
                    )
                },
                None => Err(()),
            }
        },
        None => Ok(None),
    }
}

/// The profiles of one binding on every axis that carries it, or none if one
/// of them cannot be drawn or an axis of either kind at its side has no
/// samples of it.
fn profiles_for(b: &SideBinding, axes: &Vec<Xaxis>, ui: &UiState) -> (r: Option<Vec<Encoding>>)
    requires
        ui.wf(),
    ensures
        r is Some <==> ready(*b, axes_view(axes@)),
        r matches Some(v) ==> encodings_view(v@) == profiles_of(*b, axes_view(axes@), *ui, axes@.len() as int),
{
    let ghost av = axes_view(axes@);
    let mut out: Vec<Encoding> = Vec::new();
    let mut j: usize = 0;
    while j < axes.len()
        invariant
            0 <= j <= axes@.len(),
            av == axes_view(axes@),
            ui.wf(),
            encodings_view(out@) == profiles_of(*b, av, *ui, j as int),
            forall|k: int|
                0 <= k < j && hits(*b, #[trigger] av[k]) ==> samples_for(*b, av[k].id).unwrap().len() > 0 && (
                concerns(*b, av[k]) ==> profile_spec(*b, av[k]) is Some),
        decreases axes@.len() - j,
    {
        let a = &axes[j];
        assert(a@ == av[j as int]);
        match profile_on(b, a, ui) {
            Ok(Some(e)) => {
                proof {
                    lemma_view_push(out@, e);
                }
                out.push(e);
            },
            Ok(None) => {},
            Err(()) => {
                return None;
            },
        }
        j += 1;
    }
    Some(out)
}

/// Draws the histogram or density curve of each aggregated distribution
/// binding on every scaled axis of its side that holds one of its elements,
/// appending the encodings to `out` and advancing the binding to `Rendered`.
/// A binding for which some of these cannot be drawn (a degenerate range or
/// a box-and-point request), or which has an empty sample set for the element
/// of any axis at its side, adds nothing and stays `Aggregated`, to be tried
/// again on a later pass.
pub fn plot_side_hist(
    bindings: &Vec<SideBinding>,
    stages: &mut Vec<Stage>,
    axes: &Vec<Xaxis>,
    ui: &UiState,
    out: &mut Vec<Encoding>,
)
    requires
        old(stages)@.len() == bindings@.len(),
        ui.wf(),
    ensures
        final(stages)@.len() == old(stages)@.len(),
        forall|i: int|
            0 <= i < bindings@.len() ==> #[trigger] final(stages)@[i] == if profile_renders(
                bindings@[i],
                old(stages)@[i],
                axes_view(axes@),
            ) {
                Stage::Rendered
            } else {
                old(stages)@[i]
            },
        encodings_view(final(out)@) == encodings_view(old(out)@) + all_profiles(
            bindings@,
            old(stages)@,
            axes_view(axes@),
            *ui,
            bindings@.len() as int,
        ),
{
    let ghost st0 = stages@;
    let ghost out0 = encodings_view(out@);
    let ghost av = axes_view(axes@);
    let mut i: usize = 0;
    while i < bindings.len()
        invariant
            0 <= i <= bindings@.len(),
            stages@.len() == st0.len(),
            st0.len() == bindings@.len(),
            av == axes_view(axes@),
            ui.wf(),
            forall|k: int|
                0 <= k < i ==> #[trigger] stages@[k] == if profile_renders(bindings@[k], st0[k], av) {
                    Stage::Rendered
                } else {
                    st0[k]
                },
            forall|k: int| i <= k < st0.len() ==> #[trigger] stages@[k] == st0[k],
            encodings_view(out@) == out0 + all_profiles(bindings@, st0, av, *ui, i as int),
        decreases bindings@.len() - i,
    {
        let b = &bindings[i];
        let st = stages[i];
        let eligible = !b.popup && st == Stage::Aggregated && match &b.samples {
            Samples::Distribution(_) => true,
            Samples::Point(_) => false,
        };
        if eligible {
            match profiles_for(b, axes, ui) {
                Some(mut v) => {
                    proof {
                        lemma_view_concat(out@, v@);
                    }
                    out.append(&mut v);
                    stages.set(i, Stage::Rendered);
                },
                None => {},
            }
        }
        proof {
            assert(out0 + all_profiles(bindings@, st0, av, *ui, i as int) + profiles_of(
                bindings@[i as int],
                av,
                *ui,
                av.len() as int,
            ) =~= out0 + (all_profiles(bindings@, st0, av, *ui, i as int) + profiles_of(
                bindings@[i as int],
                av,
                *ui,
                av.len() as int,
            )));
        }
        i += 1;
    }
}

/// The scalar that `b` gives the element of fixed axis `a`, if `a` carries a
/// box-and-point glyph of `b`.
pub open spec fn box_value(b: SideBinding, a: AxisView) -> Option<i64> {
    let k = index_of(labels(b.aes.identifiers@), a.id);
    match b.samples {
        Samples::Point(v) => if a.fixed && a.side == b.geom.side && 0 <= k < v@.len() {
            Some(v@[k])
        } else {
            None
        },
        Samples::Distribution(_) => None,
    }
}

pub open spec fn point_values(b: SideBinding) -> Seq<i64> {
    match b.samples {
        Samples::Point(v) => v@,
        Samples::Distribution(_) => Seq::empty(),
    }
}

/// The glyph of `b` on `a`: colored and sized by where its value stands
/// within the binding's own range (its height between the configured minimum
/// and maximum reaction sizes), in the slot of its condition among the axis's
/// conditions (the first slot when it has none there).
pub open spec fn box_encoding(b: SideBinding, a: AxisView, ui: UiState) -> EncodingView {
    let v = point_values(b);
    let x = box_value(b, a).unwrap();
    let slot = index_of(a.conditions, key_of(b.aes.condition));
    EncodingView {
        shape: ShapeView::Box {
            slot: if slot < 0 {
                0
            } else {
                slot as u64
            },
            slots: a.conditions.len() as u64,
            height: lerp_spec(
                x as int,
                least(v) as int,
                greatest(v) as int,
                ui.min_reaction as int,
                ui.max_reaction as int,
            ) as i64,
        },
        side: a.side,
        condition: condition_view(b.aes.condition),
        node_id: a.node_id,
        anchor: a.anchor,
        color: lerp_hsv_spec(
            fraction_spec(x as int, least(v) as int, greatest(v) as int),
            ui.min_reaction_color,
            ui.max_reaction_color,
        ),
        fixed: true,
        scale_y: unit_ratio(),
        label_scale_y: unit_ratio(),
        visible: true,
        popup: false,
    }
}

/// The glyphs of `b` on the first `m` axes, in axis order.
pub open spec fn boxes_of(b: SideBinding, axes: Seq<AxisView>, ui: UiState, m: int) -> Seq<EncodingView>
    decreases m,
{
    if m <= 0 {
        Seq::empty()
    } else {
        let prev = boxes_of(b, axes, ui, m - 1);
        if box_value(b, axes[m - 1]) is Some {
            prev.push(box_encoding(b, axes[m - 1], ui))
        } else {
            prev
        }
    }
}

pub open spec fn box_eligible(b: SideBinding, st: Stage) -> bool {
    !b.popup && st == Stage::Aggregated && b.samples is Point && point_values(b).len() > 0
}

/// Every glyph of the first `n` bindings that the box pass renders.
pub open spec fn all_boxes(
    bs: Seq<SideBinding>,
    sts: Seq<Stage>,
    axes: Seq<AxisView>,
    ui: UiState,
    n: int,
) -> Seq<EncodingView>
    decreases n,
{
    if n <= 0 {
        Seq::empty()
    } else {
        let prev = all_boxes(bs, sts, axes, ui, n - 1);
        if box_eligible(bs[n - 1], sts[n - 1]) {
            prev + boxes_of(bs[n - 1], axes, ui, axes.len() as int)
        } else {
            prev
        }
    }
}

fn boxes_for(b: &SideBinding, v: &Vec<i64>, axes: &Vec<Xaxis>, ui: &UiState) -> (r: Vec<Encoding>)
    requires
        ui.wf(),
        b.samples == Samples::Point(*v),
        v@.len() > 0,
    ensures
        encodings_view(r@) == boxes_of(*b, axes_view(axes@), *ui, axes@.len() as int),
{
    let ghost av = axes_view(axes@);
    let (lo, hi) = sample_range(v);
    let key: String = match &b.aes.condition {
        Some(c) => c.clone(),
        None => String::new(),
    };
    assert(key@ == key_of(b.aes.condition));
    let mut out: Vec<Encoding> = Vec::new();
    let mut j: usize = 0;
    while j < axes.len()
        invariant
            0 <= j <= axes@.len(),
            av == axes_view(axes@),
            ui.wf(),
            b.samples == Samples::Point(*v),
            (lo, hi) == (least(v@), greatest(v@)),
            forall|i: int| 0 <= i < v@.len() ==> lo <= #[trigger] v@[i] <= hi,
            key@ == key_of(b.aes.condition),
            encodings_view(out@) == boxes_of(*b, av, *ui, j as int),
        decreases axes@.len() - j,
    {
        let a = &axes[j];
        assert(a@ == av[j as int]);
        if a.fixed && a.side == b.geom.side {
            match crate::axis::position(&b.aes.identifiers, &a.id) {
                Some(k) => {
                    if k < v.len() {
                        let x = v[k];
                        assert(lo <= v@[k as int] <= hi);
                        let t = fraction_of(x, lo, hi);
                        let color = lerp_hsv(t, ui.min_reaction_color, ui.max_reaction_color);
                        proof {
                            lemma_lerp_between(
                                x as int,
                                lo as int,
                                hi as int,
                                ui.min_reaction as int,
                                ui.max_reaction as int,
                            );
                        }
                        let height = lerp(x, lo, hi, ui.min_reaction, ui.max_reaction);
                        let slot: u64 = match crate::axis::position(&a.conditions, &key) {
                            Some(p) => p as u64,
                            None => 0,
                        };
                        let e = Encoding {
                            shape: Shape::Box(BoxGlyph { slot, slots: a.conditions.len() as u64, height }),
                            tag: HistTag {
                                side: a.side,
                                condition: clone_condition(&b.aes.condition),
                                node_id: a.node_id,
                            },
                            anchor: a.anchor,
                            color,
                            fixed: true,
                            scale_y: Ratio { num: 1, den: 1 },
                            label_scale_y: Ratio { num: 1, den: 1 },
                            visible: true,
                            popup: false,
                        };
                        proof {
                            lemma_view_push(out@, e);
                        }
                        out.push(e);
                    }
                },
                None => {},
            }
        }
        j += 1;
    }
    out
}

/// Draws a box-and-point glyph for each aggregated scalar binding on every
/// fixed axis of its side that holds one of its elements, appending the
/// encodings to `out` and advancing the binding to `Rendered`.
pub fn plot_side_box(
    bindings: &Vec<SideBinding>,
    stages: &mut Vec<Stage>,
    axes: &Vec<Xaxis>,
    ui: &UiState,
    out: &mut Vec<Encoding>,
)
    requires
        old(stages)@.len() == bindings@.len(),
        ui.wf(),
    ensures
        final(stages)@.len() == old(stages)@.len(),
        forall|i: int|
            0 <= i < bindings@.len() ==> #[trigger] final(stages)@[i] == if box_eligible(
                bindings@[i],
                old(stages)@[i],
            ) {
                Stage::Rendered
            } else {
                old(stages)@[i]
            },
        encodings_view(final(out)@) == encodings_view(old(out)@) + all_boxes(
            bindings@,
            old(stages)@,
            axes_view(axes@),
            *ui,
            bindings@.len() as int,
        ),
{
    let ghost st0 = stages@;
    let ghost out0 = encodings_view(out@);
    let ghost av = axes_view(axes@);
    let mut i: usize = 0;
    while i < bindings.len()
        invariant
            0 <= i <= bindings@.len(),
            stages@.len() == st0.len(),
            st0.len() == bindings@.len(),
            av == axes_view(axes@),
            ui.wf(),
            forall|k: int|
                0 <= k < i ==> #[trigger] stages@[k] == if box_eligible(bindings@[k], st0[k]) {
                    Stage::Rendered
                } else {
                    st0[k]
                },
            forall|k: int| i <= k < st0.len() ==> #[trigger] stages@[k] == st0[k],
            encodings_view(out@) == out0 + all_boxes(bindings@, st0, av, *ui, i as int),
        decreases bindings@.len() - i,
    {
        let b = &bindings[i];
        let st = stages[i];
        if !b.popup && st == Stage::Aggregated {
            match &b.samples {
                Samples::Point(v) => {
                    if v.len() > 0 {
                        let mut g = boxes_for(b, v, axes, ui);
                        proof {
                            lemma_view_concat(out@, g@);
                        }
                        out.append(&mut g);
                        stages.set(i, Stage::Rendered);
                    }
                },
                Samples::Distribution(_) => {},
            }
        }
        proof {
            assert(out0 + all_boxes(bindings@, st0, av, *ui, i as int) + boxes_of(
                bindings@[i as int],
                av,
                *ui,
                av.len() as int,
            ) =~= out0 + (all_boxes(bindings@, st0, av, *ui, i as int) + boxes_of(
                bindings@[i as int],
                av,
                *ui,
                av.len() as int,
            )));
        }
        i += 1;
    }
}

/// Whether axis `a` carries encoding `e`.
pub open spec fn follows(e: EncodingView, a: AxisView) -> bool {
    e.node_id == a.node_id && e.side == a.side && e.fixed == a.fixed
}

/// The anchor of `e` after following the first `m` axes: that of the last one
/// that carries it, else its own.
pub open spec fn followed_anchor(e: EncodingView, axes: Seq<AxisView>, m: int) -> Anchor
    decreases m,
{
    if m <= 0 {
        e.anchor
    } else if follows(e, axes[m - 1]) {
        axes[m - 1].anchor
    } else {
        followed_anchor(e, axes, m - 1)
    }
}

fn follow_one(e: &mut Encoding, axes: &Vec<Xaxis>)
    ensures
        final(e)@ == (EncodingView { anchor: followed_anchor(old(e)@, axes_view(axes@), axes@.len() as int), ..old(e)@ }),
{
    let ghost av = axes_view(axes@);
    let mut j: usize = axes.len();
    while j > 0
        invariant
            0 <= j <= axes@.len(),
            av == axes_view(axes@),
            followed_anchor(old(e)@, av, axes@.len() as int) == followed_anchor(old(e)@, av, j as int),
            *e == *old(e),
        decreases j,
    {
        let a = &axes[j - 1];
        assert(a@ == av[j - 1]);
        if a.node_id == e.tag.node_id && a.side == e.tag.side && a.fixed == e.fixed {
            e.anchor = a.anchor;
            return;
        }
        j -= 1;
    }
}

/// Moves every encoding to the anchor of the axis that carries it (same
/// element, side and kind), so that plots follow axes that a user dragged or
/// rotated. When several axes carry one, the last of them wins.
pub fn follow_the_axes(axes: &Vec<Xaxis>, encodings: &mut Vec<Encoding>)
    ensures
        final(encodings)@.len() == old(encodings)@.len(),
        forall|k: int|
            0 <= k < old(encodings)@.len() ==> #[trigger] final(encodings)@[k]@ == (EncodingView {
                anchor: followed_anchor(old(encodings)@[k]@, axes_view(axes@), axes@.len() as int),
                ..old(encodings)@[k]@
            }),
{
    let ghost v0 = encodings@;
    let mut i: usize = 0;
    while i < encodings.len()
        invariant
            0 <= i <= encodings@.len(),
            encodings@.len() == v0.len(),
            forall|k: int|
                0 <= k < i ==> #[trigger] encodings@[k]@ == (EncodingView {
                    anchor: followed_anchor(v0[k]@, axes_view(axes@), axes@.len() as int),
                    ..v0[k]@
                }),
            forall|k: int| i <= k < v0.len() ==> #[trigger] encodings@[k] == v0[k],
        decreases encodings@.len() - i,
    {
        let mut e = encodings.remove(i);
        follow_one(&mut e, axes);
        encodings.insert(i, e);
        i += 1;
    }
}

/// A binding whose sample set is empty for the element of some axis at its
/// side, of either kind, gets no geometry on that axis, and the profile pass
/// renders nothing of it and leaves its stage as it was: it stays eligible
/// for a later pass.
pub proof fn lemma_empty_samples_not_rendered(b: SideBinding, st: Stage, axes: Seq<AxisView>, j: int)
    requires
        0 <= j < axes.len(),
        axes[j].side == b.geom.side,
        samples_for(b, axes[j].id) matches Some(s) && s.len() == 0,
    ensures
        profile_spec(b, axes[j]) is None,
        !profile_renders(b, st, axes),
{
    assert(hits(b, axes[j]));
}

} // verus!
