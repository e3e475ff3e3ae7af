//! Hover popups: their shared value ranges, their plots and their visibility.

use vstd::prelude::*;
use crate::axis::{
    clone_condition, condition_view, greatest, least, sample_range, samples_for, Anchor, Samples,
    SideBinding, UNIT,
};
use crate::geom::{HistPlot, HistTag, Stage};
use crate::plot::{encodings_view, unit_ratio, Encoding, EncodingView, Ratio, Shape, ShapeView};
use crate::render::{hist_spec, kde_spec, plot_hist, plot_kde, KDE_POINTS, POPUP_BINS, POPUP_WIDTH};
use crate::settings::{key_of, lookup_spec, UiState};
use crate::visibility::{all_label, is_all, is_shown, shown_under};

verus! {

/// Offset of a popup from its element, in thousandths of a map unit.
pub const POPUP_OFFSET: i64 = 150_000;

/// Bound on the coordinates of a hover target, in thousandths of a map unit.
pub const HOVER_COORD_MAX: i64 = 0x1000_0000_0000_0000;

/// An element that shows popup plots when hovered: its identifier, node id,
/// position, and the value range shared by its popups once aggregated.
pub struct Hover {
    pub id: String,
    pub node_id: u64,
    pub x: i64,
    pub y: i64,
    pub xlimits: Option<(i64, i64)>,
}

impl Hover {
    pub open spec fn wf(&self) -> bool {
        -HOVER_COORD_MAX <= self.x <= HOVER_COORD_MAX && -HOVER_COORD_MAX <= self.y <= HOVER_COORD_MAX
    }
}

/// Whether popup binding `b`, at stage `st`, adds to the range of `h`.
pub open spec fn hover_contributes(b: SideBinding, st: Stage, h: Hover) -> bool {
    &&& b.popup
    &&& st == Stage::Pending
    &&& h.xlimits is None
    &&& match samples_for(b, h.id@) {
        Some(s) => s.len() > 0,
        None => false,
    }
}

/// Index of the range kept for `node`, or -1.
pub open spec fn find_node(rs: Seq<(u64, i64, i64)>, node: u64) -> int {
    if exists|i: int| 0 <= i < rs.len() && rs[i].0 == node {
        choose|i: int| 0 <= i < rs.len() && rs[i].0 == node && forall|k: int| 0 <= k < i ==> rs[k].0 != node
    } else {
        -1
    }
}

/// The ranges after the samples that `b` gives `h` have been merged in.
pub open spec fn merge_range(rs: Seq<(u64, i64, i64)>, b: SideBinding, h: Hover) -> Seq<(u64, i64, i64)> {
    let s = samples_for(b, h.id@).unwrap();
    let (lo, hi) = (least(s), greatest(s));
    let j = find_node(rs, h.node_id);
    if j >= 0 {
        let r = rs[j];
        rs.update(j, (r.0, if lo < r.1 { lo } else { r.1 }, if hi > r.2 { hi } else { r.2 }))
    } else {
        rs.push((h.node_id, lo, hi))
    }
}

pub open spec fn hover_gather(rs: Seq<(u64, i64, i64)>, b: SideBinding, st: Stage, hs: Seq<Hover>, m: int) -> Seq<(u64, i64, i64)>
    decreases m,
{
    if m <= 0 {
        rs
    } else {
        let prev = hover_gather(rs, b, st, hs, m - 1);
        if hover_contributes(b, st, hs[m - 1]) {
            merge_range(prev, b, hs[m - 1])
        } else {
            prev
        }
    }
}

/// The ranges per node after the first `n` bindings have met every hover target.
pub open spec fn hover_ranges(bs: Seq<SideBinding>, sts: Seq<Stage>, hs: Seq<Hover>, n: int) -> Seq<(u64, i64, i64)>
    decreases n,
{
    if n <= 0 {
        Seq::empty()
    } else {
        hover_gather(hover_ranges(bs, sts, hs, n - 1), bs[n - 1], sts[n - 1], hs, hs.len() as int)
    }
}

pub open spec fn hover_matched(b: SideBinding, st: Stage, hs: Seq<Hover>) -> bool {
    exists|j: int| 0 <= j < hs.len() && hover_contributes(b, st, #[trigger] hs[j])
}

/// The range that a hover target holds after aggregation.
pub open spec fn hover_limits(h: Hover, rs: Seq<(u64, i64, i64)>) -> Option<(i64, i64)> {
    let j = find_node(rs, h.node_id);
    if j >= 0 {
        Some((rs[j].1, rs[j].2))
    } else {
        h.xlimits
    }
}

fn find_node_exec(rs: &Vec<(u64, i64, i64)>, node: u64) -> (r: Option<usize>)
    ensures
        r matches Some(k) ==> k < rs@.len() && k as int == find_node(rs@, node) && rs@[k as int].0 == node,
        r is None ==> find_node(rs@, node) == -1,
{
    let mut i: usize = 0;
    while i < rs.len()
        invariant
            0 <= i <= rs@.len(),
            forall|k: int| 0 <= k < i ==> rs@[k].0 != node,
        decreases rs@.len() - i,
    {
        if rs[i].0 == node {
            proof {
                let c = find_node(rs@, node);
                assert(0 <= c < rs@.len() && rs@[c].0 == node);
                if c < i {
                    assert(rs@[c].0 != node);
                }
                if c > i {
                    assert(rs@[i as int].0 != node);
                }
            }
            return Some(i);
        }
        i += 1;
    }
    None
}

fn hover_samples<'a>(b: &'a SideBinding, h: &Hover) -> (r: Option<&'a Vec<i64>>)
    ensures
        r matches Some(s) ==> samples_for(*b, h.id@) == Some(s@),
        r is None ==> samples_for(*b, h.id@) is None,
{
    match &b.samples {
        Samples::Distribution(d) => match crate::axis::position(&b.aes.identifiers, &h.id) {
            Some(k) => if k < d.len() {
                Some(&d[k])
            } else {
                None
            },
            None => None,
        },
        Samples::Point(_) => None,
    }
}

/// Aggregates the pending popup distribution bindings into one value range
/// per hovered node: the union of the sample ranges of every binding for
/// every hover target of that node that has no range yet. Each such target
/// of a node with a new range takes it; a binding that reached some target
/// advances to `Aggregated`.
pub fn build_hover_axes(bindings: &Vec<SideBinding>, stages: &mut Vec<Stage>, hovers: &mut Vec<Hover>)
    requires
        old(stages)@.len() == bindings@.len(),
    ensures
        final(stages)@.len() == old(stages)@.len(),
        forall|i: int|
            0 <= i < bindings@.len() ==> #[trigger] final(stages)@[i] == if hover_matched(bindings@[i], old(stages)@[i], old(hovers)@) {
                Stage::Aggregated
            } else {
                old(stages)@[i]
            },
        final(hovers)@.len() == old(hovers)@.len(),
        forall|j: int|
            0 <= j < old(hovers)@.len() ==> ({
                let h = old(hovers)@[j];
                let rs = hover_ranges(bindings@, old(stages)@, old(hovers)@, bindings@.len() as int);
                #[trigger] final(hovers)@[j] == (Hover { xlimits: hover_limits(h, rs), ..h })
            }),
{
    let ghost st0 = stages@;
    let ghost hs0 = hovers@;
    let mut rs: Vec<(u64, i64, i64)> = Vec::new();
    let mut i: usize = 0;
    while i < bindings.len()
        invariant
            0 <= i <= bindings@.len(),
            stages@.len() == st0.len(),
            st0.len() == bindings@.len(),
            hovers@ == hs0,
            forall|k: int|
                0 <= k < i ==> #[trigger] stages@[k] == if hover_matched(bindings@[k], st0[k], hs0) {
                    Stage::Aggregated
                } else {
                    st0[k]
                },
            forall|k: int| i <= k < st0.len() ==> #[trigger] stages@[k] == st0[k],
            rs@ == hover_ranges(bindings@, st0, hs0, i as int),
        decreases bindings@.len() - i,
    {
        let b = &bindings[i];
        let st = stages[i];
        let ghost before = rs@;
        let mut hit = false;
        let mut j: usize = 0;
        while j < hovers.len()
            invariant
                0 <= j <= hs0.len(),
                hovers@ == hs0,
                i < bindings@.len(),
                *b == bindings@[i as int],
                st == st0[i as int],
                rs@ == hover_gather(before, *b, st, hs0, j as int),
                hit == exists|k: int| 0 <= k < j && hover_contributes(*b, st, #[trigger] hs0[k]),
            decreases hs0.len() - j,
        {
            let h = &hovers[j];
            if b.popup && st == Stage::Pending && h.xlimits.is_none() {
                match hover_samples(b, h) {
                    Some(s) => {
                        if s.len() > 0 {
                            let (lo, hi) = sample_range(s);
                            match find_node_exec(&rs, h.node_id) {
                                Some(k) => {
                                    let r = rs[k];
                                    let nlo = if lo < r.1 { lo } else { r.1 };
                                    let nhi = if hi > r.2 { hi } else { r.2 };
                                    rs.set(k, (r.0, nlo, nhi));
                                },
                                None => {
                                    rs.push((h.node_id, lo, hi));
                                },
                            }
                            hit = true;
                        }
                    },
                    None => {},
                }
            }
            proof {
                assert(hit == exists|k: int| 0 <= k < j + 1 && hover_contributes(*b, st, #[trigger] hs0[k])) by {
                    if hover_contributes(*b, st, hs0[j as int]) {
                        assert(0 <= j < j + 1);
                    }
                }
            }
            j += 1;
        }
        if hit {
            stages.set(i, Stage::Aggregated);
        }
        i += 1;
    }
    apply_ranges(hovers, &rs);
}

#[verifier::rlimit(40)]
fn apply_ranges(hovers: &mut Vec<Hover>, rs: &Vec<(u64, i64, i64)>)
    ensures
        final(hovers)@.len() == old(hovers)@.len(),
        forall|k: int|
            0 <= k < old(hovers)@.len() ==> #[trigger] final(hovers)@[k] == (Hover {
                xlimits: hover_limits(old(hovers)@[k], rs@),
                ..old(hovers)@[k]
            }),
{
    let ghost hs0 = hovers@;
    let mut j: usize = 0;
    while j < hovers.len()
        invariant
            0 <= j <= hs0.len(),
            hovers@.len() == hs0.len(),
            forall|k: int| 0 <= k < j ==> #[trigger] hovers@[k] == (Hover { xlimits: hover_limits(hs0[k], rs@), ..hs0[k] }),
            forall|k: int| j <= k < hs0.len() ==> #[trigger] hovers@[k] == hs0[k],
        decreases hs0.len() - j,
    {
        let ghost prev = hovers@;
        match find_node_exec(rs, hovers[j].node_id) {
            Some(k) => {
                let mut h = hovers.remove(j);
                h.xlimits = Some((rs[k].1, rs[k].2));
                hovers.insert(j, h);
                assert(hovers@ =~= prev.update(j as int, h));
            },
            None => {},
        }
        j += 1;
    }
}

pub open spec fn popup_eligible(b: SideBinding, st: Stage) -> bool {
    b.popup && st == Stage::Aggregated && b.samples is Distribution
}

/// Whether hover target `h` carries a popup of `b`.
pub open spec fn popup_concerns(b: SideBinding, h: Hover) -> bool {
    h.xlimits is Some && samples_for(b, h.id@) is Some
}

/// The popup plot of `b` at `h`; none for an empty sample set, a degenerate
/// range, or a box-and-point request.
pub open spec fn popup_profile(b: SideBinding, h: Hover) -> Option<ShapeView> {
    let s = samples_for(b, h.id@).unwrap();
    let (lo, hi) = h.xlimits.unwrap();
    if s.len() == 0 || lo >= hi {
        None
    } else {
        match b.geom.plot {
            HistPlot::Hist => Some(
                ShapeView::Profile {
                    heights: hist_spec(s, lo as int, hi as int, POPUP_BINS as int),
                    width: POPUP_WIDTH,
                    curve: false,
                },
            ),
            HistPlot::Kde => Some(
                ShapeView::Profile {
                    heights: kde_spec(s, lo as int, hi as int, KDE_POINTS as int),
                    width: POPUP_WIDTH,
                    curve: true,
                },
            ),
            HistPlot::BoxPoint => None,
        }
    }
}

pub open spec fn popup_ready(b: SideBinding, hs: Seq<Hover>) -> bool {
    forall|j: int| 0 <= j < hs.len() && popup_concerns(b, #[trigger] hs[j]) ==> popup_profile(b, hs[j]) is Some
}

/// Where a popup of `h` is drawn: up and to the right of the element.
pub open spec fn popup_anchor(h: Hover) -> Anchor {
    Anchor { x: (h.x + POPUP_OFFSET) as i64, y: (h.y + POPUP_OFFSET) as i64, facing_x: 0, facing_y: UNIT }
}

/// A popup starts hidden; hovering its element shows it.
pub open spec fn popup_encoding(b: SideBinding, h: Hover, ui: UiState) -> EncodingView {
    EncodingView {
        shape: popup_profile(b, h).unwrap(),
        side: b.geom.side,
        condition: condition_view(b.aes.condition),
        node_id: h.node_id,
        anchor: popup_anchor(h),
        color: lookup_spec(ui.side_table(b.geom.side), key_of(b.aes.condition)),
        fixed: false,
        scale_y: unit_ratio(),
        label_scale_y: unit_ratio(),
        visible: false,
        popup: true,
    }
}

pub open spec fn popups_of(b: SideBinding, hs: Seq<Hover>, ui: UiState, m: int) -> Seq<EncodingView>
    decreases m,
{
    if m <= 0 {
        Seq::empty()
    } else {
        let prev = popups_of(b, hs, ui, m - 1);
        if popup_concerns(b, hs[m - 1]) {
            prev.push(popup_encoding(b, hs[m - 1], ui))
        } else {
            prev
        }
    }
}

pub open spec fn popup_renders(b: SideBinding, st: Stage, hs: Seq<Hover>) -> bool {
    popup_eligible(b, st) && popup_ready(b, hs)
}

pub open spec fn all_popups(bs: Seq<SideBinding>, sts: Seq<Stage>, hs: Seq<Hover>, ui: UiState, n: int) -> Seq<EncodingView>
    decreases n,
{
    if n <= 0 {
        Seq::empty()
    } else {
        let prev = all_popups(bs, sts, hs, ui, n - 1);
        if popup_renders(bs[n - 1], sts[n - 1], hs) {
            prev + popups_of(bs[n - 1], hs, ui, hs.len() as int)
        } else {
            prev
        }
    }
}

fn draw_popup(b: &SideBinding, h: &Hover, s: &Vec<i64>, ui: &UiState) -> (r: Option<Encoding>)
    requires
        ui.wf(),
        h.wf(),
        h.xlimits is Some,
        samples_for(*b, h.id@) == Some(s@),
    ensures
        r is Some <==> popup_profile(*b, *h) is Some,
        r matches Some(e) ==> e@ == popup_encoding(*b, *h, *ui),
{
    let lim = h.xlimits.unwrap();
    let p = match b.geom.plot {
        HistPlot::Hist => plot_hist(s, POPUP_BINS, POPUP_WIDTH, lim),
        HistPlot::Kde => plot_kde(s, KDE_POINTS, POPUP_WIDTH, lim),
        HistPlot::BoxPoint => None,
    };
    match p {
        Some(p) => {
            let color = ui.side_color(b.geom.side, &b.aes.condition);
            Some(
                Encoding {
                    shape: Shape::Profile(p),
                    tag: HistTag {
                        side: b.geom.side,
                        condition: clone_condition(&b.aes.condition),
                        node_id: h.node_id,
                    },
                    anchor: Anchor { x: h.x + POPUP_OFFSET, y: h.y + POPUP_OFFSET, facing_x: 0, facing_y: UNIT },
                    color,
                    fixed: false,
                    scale_y: Ratio { num: 1, den: 1 },
                    label_scale_y: Ratio { num: 1, den: 1 },
                    visible: false,
                    popup: true,
                },
            )
        },
        None => None,
    }
}

#[verifier::rlimit(60)]
fn popups_for(b: &SideBinding, hovers: &Vec<Hover>, ui: &UiState) -> (r: Option<Vec<Encoding>>)
    requires
        ui.wf(),
        forall|j: int| 0 <= j < hovers@.len() ==> (#[trigger] hovers@[j]).wf(),
    ensures
        r is Some <==> popup_ready(*b, hovers@),
        r matches Some(v) ==> encodings_view(v@) == popups_of(*b, hovers@, *ui, hovers@.len() as int),
{
    let mut out: Vec<Encoding> = Vec::new();
    let mut j: usize = 0;
    while j < hovers.len()
        invariant
            0 <= j <= hovers@.len(),
            ui.wf(),
            forall|k: int| 0 <= k < hovers@.len() ==> (#[trigger] hovers@[k]).wf(),
            encodings_view(out@) == popups_of(*b, hovers@, *ui, j as int),
            forall|k: int| 0 <= k < j && popup_concerns(*b, #[trigger] hovers@[k]) ==> popup_profile(*b, hovers@[k]) is Some,
        decreases hovers@.len() - j,
    {
        let h = &hovers[j];
        if h.xlimits.is_some() {
            match hover_samples(b, h) {
                Some(smp) => match draw_popup(b, h, smp, ui) {
                    Some(e) => {
                        proof {
                            assert(encodings_view(out@.push(e)) =~= encodings_view(out@).push(e@));
                        }
                        out.push(e);
                    },
                    None => {
                        return None;
                    },
                },
                None => {},
            }
        }
        j += 1;
    }
    Some(out)
}

/// Draws the popup histogram or density curve of each aggregated popup
/// binding at every hover target with a range that holds one of its
/// elements, appending the hidden popups to `out` and advancing the binding
/// to `Rendered`. A binding for which one of them cannot be drawn adds
/// nothing and stays `Aggregated`.
pub fn plot_hover_hist(
    bindings: &Vec<SideBinding>,
    stages: &mut Vec<Stage>,
    hovers: &Vec<Hover>,
    ui: &UiState,
    out: &mut Vec<Encoding>,
)
    requires
        old(stages)@.len() == bindings@.len(),
        ui.wf(),
        forall|j: int| 0 <= j < hovers@.len() ==> (#[trigger] hovers@[j]).wf(),
    ensures
        final(stages)@.len() == old(stages)@.len(),
        forall|i: int|
            0 <= i < bindings@.len() ==> #[trigger] final(stages)@[i] == if popup_renders(bindings@[i], old(stages)@[i], hovers@) {
                Stage::Rendered
            } else {
                old(stages)@[i]
            },
        encodings_view(final(out)@) == encodings_view(old(out)@) + all_popups(
            bindings@,
            old(stages)@,
            hovers@,
            *ui,
            bindings@.len() as int,
        ),
{
    let ghost st0 = stages@;
    let ghost out0 = encodings_view(out@);
    let mut i: usize = 0;
    while i < bindings.len()
        invariant
            0 <= i <= bindings@.len(),
            stages@.len() == st0.len(),
            st0.len() == bindings@.len(),
            ui.wf(),
            forall|j: int| 0 <= j < hovers@.len() ==> (#[trigger] hovers@[j]).wf(),
            forall|k: int|
                0 <= k < i ==> #[trigger] stages@[k] == if popup_renders(bindings@[k], st0[k], hovers@) {
                    Stage::Rendered
                } else {
                    st0[k]
                },
            forall|k: int| i <= k < st0.len() ==> #[trigger] stages@[k] == st0[k],
            encodings_view(out@) == out0 + all_popups(bindings@, st0, hovers@, *ui, i as int),
        decreases bindings@.len() - i,
    {
        let b = &bindings[i];
        let st = stages[i];
        let eligible = b.popup && st == Stage::Aggregated && match &b.samples {
            Samples::Distribution(_) => true,
            Samples::Point(_) => false,
        };
        if eligible {
            match popups_for(b, hovers, ui) {
                Some(mut v) => {
                    proof {
                        assert(encodings_view(out@ + v@) =~= encodings_view(out@) + encodings_view(v@));
                    }
                    out.append(&mut v);
                    stages.set(i, Stage::Rendered);
                },
                None => {},
            }
        }
        proof {
            let pr = all_popups(bindings@, st0, hovers@, *ui, i as int);
            let cur = popups_of(bindings@[i as int], hovers@, *ui, hovers@.len() as int);
            assert(out0 + pr + cur =~= out0 + (pr + cur));
        }
        i += 1;
    }
}

/// Whether a popup tagged `cond` is hidden while the cursor is away from
/// every element: it belongs to a condition other than the active one, and
/// the sentinel is not active.
pub open spec fn off_condition(cond: Option<Seq<char>>, active: Seq<char>) -> bool {
    match cond {
        None => false,
        Some(c) => c != active && active != all_label(),
    }
}

/// A popup's visibility after the cursor moved: over the element `node`
/// (`inside`), the popups of that element for a shown condition appear;
/// away from it, the popups of that element and those of other conditions
/// disappear. Other popups keep their visibility.
pub open spec fn hovered(e: EncodingView, node: u64, inside: bool, active: Seq<char>) -> EncodingView {
    if inside {
        if e.node_id == node && shown_under(e.condition, active) {
            EncodingView { visible: true, ..e }
        } else {
            e
        }
    } else if e.node_id == node || off_condition(e.condition, active) {
        EncodingView { visible: false, ..e }
    } else {
        e
    }
}

fn hover_one(e: &mut Encoding, node: u64, inside: bool, active: &String)
    ensures
        final(e)@ == hovered(old(e)@, node, inside, active@),
{
    if inside {
        if e.tag.node_id == node && is_shown(&e.tag.condition, active) {
            e.visible = true;
        }
    } else {
        let off = match &e.tag.condition {
            None => false,
            Some(c) => *c != *active && !is_all(active),
        };
        if e.tag.node_id == node || off {
            e.visible = false;
        }
    }
}

/// Updates the popups after the cursor moved relative to the element `node`;
/// `inside` says whether it is now over that element.
pub fn show_hover(popups: &mut Vec<Encoding>, node: u64, inside: bool, active: &String)
    ensures
        encodings_view(final(popups)@) == encodings_view(old(popups)@).map_values(
            |e: EncodingView| hovered(e, node, inside, active@),
        ),
{
    let ghost v0 = encodings_view(popups@);
    let mut i: usize = 0;
    while i < popups.len()
        invariant
            0 <= i <= popups@.len(),
            popups@.len() == v0.len(),
            forall|k: int| 0 <= k < i ==> #[trigger] popups@[k]@ == hovered(v0[k], node, inside, active@),
            forall|k: int| i <= k < v0.len() ==> #[trigger] popups@[k]@ == v0[k],
        decreases popups@.len() - i,
    {
        let mut e = popups.remove(i);
        hover_one(&mut e, node, inside, active);
        popups.insert(i, e);
        i += 1;
    }
    proof {
        assert(encodings_view(popups@) =~= v0.map_values(|e: EncodingView| hovered(e, node, inside, active@)));
    }
}

} // verus!
