//! Bindings, plot targets and the aggregation of side plots into shared axes.

use vstd::prelude::*;
use crate::geom::{GeomHist, HistPlot, Side, Stage};
use crate::scale::{max_sample, min_sample};

verus! {

/// Length of a unit direction vector, in thousandths of a map unit.
pub const UNIT: i64 = 1000;

/// How far a side plot stands from its element, in map units.
pub const AWAY: i64 = 30;

/// Bound on the coordinates of an element, in thousandths of a map unit.
pub const COORD_MAX: i64 = 0x1000_0000_0000_0000;

/// Where a side plot is drawn: the base point (thousandths of a map unit) and
/// the direction in which its bars grow (a unit vector in thousandths).
#[derive(Clone, Copy, Debug, PartialEq, Eq, Structural)]
pub struct Anchor {
    pub x: i64,
    pub y: i64,
    pub facing_x: i64,
    pub facing_y: i64,
}

/// An arrow of the map as the layout loader hands it over: its identifier,
/// numeric node id, position and unit direction (thousandths of a map unit),
/// length, and the anchors of side plots that a user placed and saved.
pub struct ArrowTag {
    pub id: String,
    pub node_id: u64,
    pub x: i64,
    pub y: i64,
    pub dir_x: i64,
    pub dir_y: i64,
    pub length: u64,
    pub saved_left: Option<Anchor>,
    pub saved_right: Option<Anchor>,
}

impl ArrowTag {
    pub open spec fn wf(&self) -> bool {
        &&& -COORD_MAX <= self.x <= COORD_MAX
        &&& -COORD_MAX <= self.y <= COORD_MAX
        &&& -UNIT <= self.dir_x <= UNIT
        &&& -UNIT <= self.dir_y <= UNIT
    }
}

/// The element identifiers and condition label of a data binding.
pub struct Aesthetics {
    pub identifiers: Vec<String>,
    pub condition: Option<String>,
}

/// The values of a binding: one scalar or one sample set per identifier.
pub enum Samples {
    Point(Vec<i64>),
    Distribution(Vec<Vec<i64>>),
}

/// A binding that drives side plots: its identifiers and values, where and
/// how it is drawn, and whether it belongs to the hover popups.
pub struct SideBinding {
    pub aes: Aesthetics,
    pub samples: Samples,
    pub geom: GeomHist,
    pub popup: bool,
}

/// A plot axis shared by every binding drawn at the same side of the same
/// element: value range, element length, anchor and contributing conditions.
/// A `fixed` axis carries box-and-point glyphs, whose height is not rescaled.
pub struct Xaxis {
    pub id: String,
    pub node_id: u64,
    pub arrow_size: u64,
    pub xlimits: (i64, i64),
    pub side: Side,
    pub plot: HistPlot,
    pub conditions: Vec<String>,
    pub anchor: Anchor,
    pub fixed: bool,
}

/// What an axis holds, over plain values.
pub struct AxisView {
    pub id: Seq<char>,
    pub node_id: u64,
    pub arrow_size: u64,
    pub lo: i64,
    pub hi: i64,
    pub side: Side,
    pub plot: HistPlot,
    pub conditions: Seq<Seq<char>>,
    pub anchor: Anchor,
    pub fixed: bool,
}

pub open spec fn labels(v: Seq<String>) -> Seq<Seq<char>> {
    v.map_values(|s: String| s@)
}

impl View for Xaxis {
    type V = AxisView;

    open spec fn view(&self) -> AxisView {
        AxisView {
            id: self.id@,
            node_id: self.node_id,
            arrow_size: self.arrow_size,
            lo: self.xlimits.0,
            hi: self.xlimits.1,
            side: self.side,
            plot: self.plot,
            conditions: labels(self.conditions@),
            anchor: self.anchor,
            fixed: self.fixed,
        }
    }
}

pub open spec fn axes_view(v: Seq<Xaxis>) -> Seq<AxisView> {
    v.map_values(|a: Xaxis| a@)
}

pub open spec fn condition_view(c: Option<String>) -> Option<Seq<char>> {
    match c {
        Some(s) => Some(s@),
        None => None,
    }
}

/// Index of the first occurrence of `x` in `s`, or -1.
pub open spec fn index_of(s: Seq<Seq<char>>, x: Seq<char>) -> int {
    if exists|i: int| 0 <= i < s.len() && s[i] == x {
        choose|i: int| 0 <= i < s.len() && s[i] == x && forall|k: int| 0 <= k < i ==> s[k] != x
    } else {
        -1
    }
}

/// Smallest element of a non-empty sample set.
pub open spec fn least(s: Seq<i64>) -> i64 {
    choose|m: i64| s.contains(m) && forall|i: int| 0 <= i < s.len() ==> m <= #[trigger] s[i]
}

/// Largest element of a non-empty sample set.
pub open spec fn greatest(s: Seq<i64>) -> i64 {
    choose|m: i64| s.contains(m) && forall|i: int| 0 <= i < s.len() ==> #[trigger] s[i] <= m
}

pub open spec fn is_side(side: Side) -> bool {
    side == Side::Left || side == Side::Right
}

/// The anchor of a new axis at `side` of `t`: the saved one if the user
/// placed one, else facing away from the arrow's perpendicular and `AWAY`
/// units from the arrow.
pub open spec fn anchor_spec(t: ArrowTag, side: Side) -> Anchor {
    let (fx, fy) = if side == Side::Right {
        (-t.dir_y as int, t.dir_x as int)
    } else {
        (t.dir_y as int, -t.dir_x as int)
    };
    let computed = Anchor {
        x: (t.x - AWAY * fx) as i64,
        y: (t.y - AWAY * fy) as i64,
        facing_x: fx as i64,
        facing_y: fy as i64,
    };
    let saved = if side == Side::Right {
        t.saved_right
    } else {
        t.saved_left
    };
    match saved {
        Some(a) => a,
        None => computed,
    }
}

/// The sample set that `b` gives the element `id`, if any.
pub open spec fn samples_for(b: SideBinding, id: Seq<char>) -> Option<Seq<i64>> {
    let k = index_of(labels(b.aes.identifiers@), id);
    match b.samples {
        Samples::Distribution(d) => if 0 <= k < d@.len() {
            Some(d@[k]@)
        } else {
            None
        },
        Samples::Point(_) => None,
    }
}

/// Whether the binding, at stage `st`, adds to an axis of `t` in a pass that
/// builds `fixed` axes (from scalars) or scaled axes (from distributions).
pub open spec fn contributes(b: SideBinding, st: Stage, t: ArrowTag, fixed: bool) -> bool {
    &&& !b.popup
    &&& st == Stage::Pending
    &&& is_side(b.geom.side)
    &&& if fixed {
        b.samples is Point && index_of(labels(b.aes.identifiers@), t.id@) >= 0
    } else {
        match samples_for(b, t.id@) {
            Some(s) => s.len() > 0,
            None => false,
        }
    }
}

pub open spec fn key_matches(a: AxisView, id: Seq<char>, side: Side, fixed: bool) -> bool {
    a.id == id && a.side == side && a.fixed == fixed
}

/// Index of the axis with the given key, or -1.
pub open spec fn find_axis(axes: Seq<AxisView>, id: Seq<char>, side: Side, fixed: bool) -> int {
    if exists|i: int| 0 <= i < axes.len() && key_matches(axes[i], id, side, fixed) {
        choose|i: int|
            0 <= i < axes.len() && key_matches(axes[i], id, side, fixed) && forall|k: int|
                0 <= k < i ==> !key_matches(axes[k], id, side, fixed)
    } else {
        -1
    }
}

pub open spec fn pushed(c: Seq<Seq<char>>, cond: Option<Seq<char>>) -> Seq<Seq<char>> {
    match cond {
        Some(x) => c.push(x),
        None => c,
    }
}

/// The range that binding `b` brings to the axis of `t`.
pub open spec fn local_range(b: SideBinding, t: ArrowTag, fixed: bool) -> (i64, i64) {
    if fixed {
        (0, 0)
    } else {
        let s = samples_for(b, t.id@).unwrap();
        (least(s), greatest(s))
    }
}

/// The axes after binding `b` has been merged into the axis of `t`: the
/// existing axis for the key widens its range and records the condition; if
/// there is none, a new one is appended.
pub open spec fn merge_spec(axes: Seq<AxisView>, b: SideBinding, t: ArrowTag, fixed: bool) -> Seq<AxisView> {
    let side = b.geom.side;
    let j = find_axis(axes, t.id@, side, fixed);
    let (lo, hi) = local_range(b, t, fixed);
    let cond = condition_view(b.aes.condition);
    if j >= 0 {
        let a = axes[j];
        axes.update(
            j,
            AxisView {
                lo: if !fixed && lo < a.lo { lo } else { a.lo },
                hi: if !fixed && hi > a.hi { hi } else { a.hi },
                conditions: pushed(a.conditions, cond),
                ..a
            },
        )
    } else {
        axes.push(
            AxisView {
                id: t.id@,
                node_id: t.node_id,
                arrow_size: t.length,
                lo,
                hi,
                side,
                plot: b.geom.plot,
                conditions: pushed(Seq::empty(), cond),
                anchor: anchor_spec(t, side),
                fixed,
            },
        )
    }
}

/// The axes after binding `b` has met the first `m` targets.
pub open spec fn gather(
    axes: Seq<AxisView>,
    b: SideBinding,
    st: Stage,
    ts: Seq<ArrowTag>,
    fixed: bool,
    m: int,
) -> Seq<AxisView>
    decreases m,
{
    if m <= 0 {
        axes
    } else {
        let prev = gather(axes, b, st, ts, fixed, m - 1);
        if contributes(b, st, ts[m - 1], fixed) {
            merge_spec(prev, b, ts[m - 1], fixed)
        } else {
            prev
        }
    }
}

/// The axes after the first `n` bindings have met every target.
pub open spec fn aggregate(
    axes: Seq<AxisView>,
    bs: Seq<SideBinding>,
    sts: Seq<Stage>,
    ts: Seq<ArrowTag>,
    fixed: bool,
    n: int,
) -> Seq<AxisView>
    decreases n,
{
    if n <= 0 {
        axes
    } else {
        gather(aggregate(axes, bs, sts, ts, fixed, n - 1), bs[n - 1], sts[n - 1], ts, fixed, ts.len() as int)
    }
}

/// Whether some target takes a contribution of the binding.
pub open spec fn matched(b: SideBinding, st: Stage, ts: Seq<ArrowTag>, fixed: bool) -> bool {
    exists|j: int| 0 <= j < ts.len() && contributes(b, st, #[trigger] ts[j], fixed)
}

/// The stage of a binding after an aggregation pass.
pub open spec fn advanced(b: SideBinding, st: Stage, ts: Seq<ArrowTag>, fixed: bool) -> Stage {
    if matched(b, st, ts, fixed) {
        Stage::Aggregated
    } else {
        st
    }
}

proof fn lemma_least(s: Seq<i64>, m: i64)
    requires
        s.contains(m),
        forall|i: int| 0 <= i < s.len() ==> m <= #[trigger] s[i],
    ensures
        least(s) == m,
{
    let c = least(s);
    assert(s.contains(c) && forall|i: int| 0 <= i < s.len() ==> c <= #[trigger] s[i]);
    let ic = choose|i: int| 0 <= i < s.len() && s[i] == c;
    let im = choose|i: int| 0 <= i < s.len() && s[i] == m;
    assert(c <= s[im] && m <= s[ic]);
}

proof fn lemma_greatest(s: Seq<i64>, m: i64)
    requires
        s.contains(m),
        forall|i: int| 0 <= i < s.len() ==> #[trigger] s[i] <= m,
    ensures
        greatest(s) == m,
{
    let c = greatest(s);
    assert(s.contains(c) && forall|i: int| 0 <= i < s.len() ==> #[trigger] s[i] <= c);
    let ic = choose|i: int| 0 <= i < s.len() && s[i] == c;
    let im = choose|i: int| 0 <= i < s.len() && s[i] == m;
    assert(s[im] <= c && s[ic] <= m);
}

/// Smallest and largest sample of a non-empty sample set.
pub fn sample_range(s: &Vec<i64>) -> (r: (i64, i64))
    requires
        s@.len() > 0,
    ensures
        r == (least(s@), greatest(s@)),
        r.0 <= r.1,
        s@.contains(r.0),
        s@.contains(r.1),
        forall|i: int| 0 <= i < s@.len() ==> r.0 <= #[trigger] s@[i] <= r.1,
{
    let lo = min_sample(s);
    let hi = max_sample(s);
    proof {
        lemma_least(s@, lo);
        lemma_greatest(s@, hi);
    }
    (lo, hi)
}

/// Index of the first identifier equal to `id`.
pub fn position(ids: &Vec<String>, id: &String) -> (r: Option<usize>)
    ensures
        r matches Some(k) ==> k as int == index_of(labels(ids@), id@),
        r is None ==> index_of(labels(ids@), id@) == -1,
        r is None <==> index_of(labels(ids@), id@) < 0,
{
    let ghost l = labels(ids@);
    let mut i: usize = 0;
    while i < ids.len()
        invariant
            0 <= i <= ids@.len(),
            l == labels(ids@),
            forall|k: int| 0 <= k < i ==> l[k] != id@,
        decreases ids@.len() - i,
    {
        if ids[i] == *id {
            proof {
                assert(l[i as int] == id@);
                let c = index_of(l, id@);
                assert(0 <= c < l.len() && l[c] == id@ && forall|k: int| 0 <= k < c ==> l[k] != id@);
                if c < i {
                    assert(l[c] != id@);
                }
                if c > i {
                    assert(l[i as int] != id@);
                }
            }
            return Some(i);
        }
        i += 1;
    }
    proof {
        assert(!exists|k: int| 0 <= k < l.len() && l[k] == id@);
    }
    None
}

/// Index of the axis keyed by element `id`, `side` and fixed height.
pub fn axis_position(axes: &Vec<Xaxis>, id: &String, side: Side, fixed: bool) -> (r: Option<usize>)
    ensures
        r matches Some(k) ==> k < axes@.len() && k as int == find_axis(axes_view(axes@), id@, side, fixed)
            && key_matches(axes_view(axes@)[k as int], id@, side, fixed),
        r is None ==> find_axis(axes_view(axes@), id@, side, fixed) == -1,
{
    let ghost v = axes_view(axes@);
    let mut i: usize = 0;
    while i < axes.len()
        invariant
            0 <= i <= axes@.len(),
            v == axes_view(axes@),
            forall|k: int| 0 <= k < i ==> !key_matches(v[k], id@, side, fixed),
        decreases axes@.len() - i,
    {
        if axes[i].side == side && axes[i].fixed == fixed && axes[i].id == *id {
            proof {
                assert(key_matches(v[i as int], id@, side, fixed));
                let c = find_axis(v, id@, side, fixed);
                assert(0 <= c < v.len() && key_matches(v[c], id@, side, fixed));
                if c < i {
                    assert(!key_matches(v[c], id@, side, fixed));
                }
                if c > i {
                    assert(!key_matches(v[i as int], id@, side, fixed));
                }
            }
            return Some(i);
        }
        i += 1;
    }
    proof {
        assert(!exists|k: int| 0 <= k < v.len() && key_matches(v[k], id@, side, fixed));
    }
    None
}

/// The anchor of a new axis at `side` of `t`.
pub fn anchor_for(t: &ArrowTag, side: Side) -> (r: Anchor)
    requires
        t.wf(),
        is_side(side),
    ensures
        r == anchor_spec(*t, side),
{
    let saved = if side == Side::Right {
        t.saved_right
    } else {
        t.saved_left
    };
    match saved {
        Some(a) => a,
        None => {
            let (fx, fy): (i64, i64) = if side == Side::Right {
                (-t.dir_y, t.dir_x)
            } else {
                (t.dir_y, -t.dir_x)
            };
            Anchor { x: t.x - AWAY * fx, y: t.y - AWAY * fy, facing_x: fx, facing_y: fy }
        },
    }
}

/// A copy of a condition label.
pub(crate) fn clone_condition(c: &Option<String>) -> (r: Option<String>)
    ensures
        condition_view(r) == condition_view(*c),
{
    match c {
        Some(s) => Some(s.clone()),
        None => None,
    }
}

/// Whether binding `b`, at stage `st`, adds to an axis of `t`.
fn contributes_to(b: &SideBinding, st: Stage, t: &ArrowTag, fixed: bool) -> (r: bool)
    ensures
        r == contributes(*b, st, *t, fixed),
{
    if b.popup || st != Stage::Pending || !(b.geom.side == Side::Left || b.geom.side == Side::Right) {
        return false;
    }
    let k = position(&b.aes.identifiers, &t.id);
    match &b.samples {
        Samples::Point(_) => fixed && k.is_some(),
        Samples::Distribution(d) => {
            if fixed {
                return false;
            }
            match k {
                Some(k) => k < d.len() && d[k].len() > 0,
                None => false,
            }
        },
    }
}

proof fn lemma_view_update(s: Seq<Xaxis>, j: int, a: Xaxis)
    requires
        0 <= j < s.len(),
    ensures
        axes_view(s.remove(j).insert(j, a)) == axes_view(s).update(j, a@),
{
    assert(s.remove(j).insert(j, a) =~= s.update(j, a));
    assert(axes_view(s.update(j, a)) =~= axes_view(s).update(j, a@));
}

proof fn lemma_view_push(s: Seq<Xaxis>, a: Xaxis)
    ensures
        axes_view(s.push(a)) == axes_view(s).push(a@),
{
    assert(axes_view(s.push(a)) =~= axes_view(s).push(a@));
}

/// Widens the range of axis `j` by `r` (unless it is fixed) and records `cond`.
fn grow_axis(axes: &mut Vec<Xaxis>, j: usize, r: (i64, i64), cond: Option<String>, fixed: bool)
    requires
        j < old(axes)@.len(),
        old(axes)@[j as int].fixed == fixed,
    ensures
        ({
            let a = axes_view(old(axes)@)[j as int];
            axes_view(final(axes)@) == axes_view(old(axes)@).update(
                j as int,
                AxisView {
                    lo: if fixed || r.0 >= a.lo { a.lo } else { r.0 },
                    hi: if fixed || r.1 <= a.hi { a.hi } else { r.1 },
                    conditions: pushed(a.conditions, condition_view(cond)),
                    ..a
                },
            )
        }),
{
    let ghost s0 = axes@;
    let mut a = axes.remove(j);
    let ghost a0 = a;
    if !fixed {
        let nlo = if r.0 < a.xlimits.0 { r.0 } else { a.xlimits.0 };
        let nhi = if r.1 > a.xlimits.1 { r.1 } else { a.xlimits.1 };
        a.xlimits = (nlo, nhi);
    }
    let ghost cv = condition_view(cond);
    match cond {
        Some(c) => {
            a.conditions.push(c);
        },
        None => {},
    }
    proof {
        assert(labels(a.conditions@) =~= pushed(labels(a0.conditions@), cv));
    }
    axes.insert(j, a);
    proof {
        lemma_view_update(s0, j as int, a);
    }
}

/// Merges binding `b` into the axis of `t`, creating the axis if needed.
fn merge_axis(axes: &mut Vec<Xaxis>, b: &SideBinding, t: &ArrowTag, fixed: bool)
    requires
        contributes(*b, Stage::Pending, *t, fixed),
        t.wf(),
    ensures
        axes_view(final(axes)@) == merge_spec(axes_view(old(axes)@), *b, *t, fixed),
{
    let ghost v0 = axes_view(axes@);
    let side = b.geom.side;
    let (lo, hi): (i64, i64) = if fixed {
        (0, 0)
    } else {
        match &b.samples {
            Samples::Distribution(d) => {
                let k = position(&b.aes.identifiers, &t.id).unwrap();
                sample_range(&d[k])
            },
            Samples::Point(_) => (0, 0),
        }
    };
    assert((lo, hi) == local_range(*b, *t, fixed));
    let cond = clone_condition(&b.aes.condition);
    match axis_position(axes, &t.id, side, fixed) {
        Some(j) => {
            grow_axis(axes, j, (lo, hi), cond, fixed);
        },
        None => {
            let anchor = anchor_for(t, side);
            let mut conditions: Vec<String> = Vec::new();
            match cond {
                Some(c) => {
                    conditions.push(c);
                },
                None => {},
            }
            proof {
                assert(labels(conditions@) =~= pushed(Seq::empty(), condition_view(b.aes.condition)));
            }
            axes.push(
                Xaxis {
                    id: t.id.clone(),
                    node_id: t.node_id,
                    arrow_size: t.length,
                    xlimits: (lo, hi),
                    side,
                    plot: b.geom.plot,
                    conditions,
                    anchor,
                    fixed,
                },
            );
            proof {
                lemma_view_push(old(axes)@, axes@.last());
                assert(axes@ =~= old(axes)@.push(axes@.last()));
            }
        },
    }
}

fn aggregate_pass(
    bindings: &Vec<SideBinding>,
    stages: &mut Vec<Stage>,
    targets: &Vec<ArrowTag>,
    axes: &mut Vec<Xaxis>,
    fixed: bool,
)
    requires
        old(stages)@.len() == bindings@.len(),
        forall|j: int| 0 <= j < targets@.len() ==> (#[trigger] targets@[j]).wf(),
    ensures
        final(stages)@.len() == old(stages)@.len(),
        forall|i: int|
            0 <= i < bindings@.len() ==> #[trigger] final(stages)@[i] == advanced(
                bindings@[i],
                old(stages)@[i],
                targets@,
                fixed,
            ),
        axes_view(final(axes)@) == aggregate(
            axes_view(old(axes)@),
            bindings@,
            old(stages)@,
            targets@,
            fixed,
            bindings@.len() as int,
        ),
{
    let ghost v0 = axes_view(axes@);
    let ghost st0 = stages@;
    let mut i: usize = 0;
    while i < bindings.len()
        invariant
            0 <= i <= bindings@.len(),
            stages@.len() == st0.len(),
            st0.len() == bindings@.len(),
            forall|j: int| 0 <= j < targets@.len() ==> (#[trigger] targets@[j]).wf(),
            forall|k: int|
                0 <= k < i ==> #[trigger] stages@[k] == advanced(bindings@[k], st0[k], targets@, fixed),
            forall|k: int| i <= k < st0.len() ==> #[trigger] stages@[k] == st0[k],
            axes_view(axes@) == aggregate(v0, bindings@, st0, targets@, fixed, i as int),
        decreases bindings@.len() - i,
    {
        let b = &bindings[i];
        let st = stages[i];
        let ghost before = axes_view(axes@);
        let mut hit = false;
        let mut j: usize = 0;
        while j < targets.len()
            invariant
                0 <= j <= targets@.len(),
                i < bindings@.len(),
                *b == bindings@[i as int],
                st == st0[i as int],
                forall|k: int| 0 <= k < targets@.len() ==> (#[trigger] targets@[k]).wf(),
                axes_view(axes@) == gather(before, *b, st, targets@, fixed, j as int),
                hit == exists|k: int| 0 <= k < j && contributes(*b, st, #[trigger] targets@[k], fixed),
            decreases targets@.len() - j,
        {
            let t = &targets[j];
            if contributes_to(b, st, t, fixed) {
                merge_axis(axes, b, t, fixed);
                hit = true;
            }
            proof {
                assert(hit == exists|k: int| 0 <= k < j + 1 && contributes(*b, st, #[trigger] targets@[k], fixed)) by {
                    if contributes(*b, st, targets@[j as int], fixed) {
                        assert(0 <= j < j + 1);
                    }
                }
            }
            j += 1;
        }
        if hit {
            stages.set(i, Stage::Aggregated);
        }
        proof {
            assert(matched(*b, st, targets@, fixed) == hit);
        }
        i += 1;
    }
}

/// Aggregates the pending distribution bindings of the side plots into shared
/// axes, one per element, side: each axis's range is the union of the sample
/// ranges that reach it, and it records each contributing condition in order.
/// A binding that reached some axis advances to `Aggregated`; the others stay.
pub fn build_axes(
    bindings: &Vec<SideBinding>,
    stages: &mut Vec<Stage>,
    targets: &Vec<ArrowTag>,
    axes: &mut Vec<Xaxis>,
)
    requires
        old(stages)@.len() == bindings@.len(),
        forall|j: int| 0 <= j < targets@.len() ==> (#[trigger] targets@[j]).wf(),
    ensures
        final(stages)@.len() == old(stages)@.len(),
        forall|i: int|
            0 <= i < bindings@.len() ==> #[trigger] final(stages)@[i] == advanced(
                bindings@[i],
                old(stages)@[i],
                targets@,
                false,
            ),
        axes_view(final(axes)@) == aggregate(
            axes_view(old(axes)@),
            bindings@,
            old(stages)@,
            targets@,
            false,
            bindings@.len() as int,
        ),
{
    aggregate_pass(bindings, stages, targets, axes, false);
}

/// Aggregates the pending scalar bindings of the side plots into fixed-height
/// axes for box-and-point glyphs: as `build_axes`, but the range of a fixed
/// axis stays `(0, 0)`.
pub fn build_point_axes(
    bindings: &Vec<SideBinding>,
    stages: &mut Vec<Stage>,
    targets: &Vec<ArrowTag>,
    axes: &mut Vec<Xaxis>,
)
    requires
        old(stages)@.len() == bindings@.len(),
        forall|j: int| 0 <= j < targets@.len() ==> (#[trigger] targets@[j]).wf(),
    ensures
        final(stages)@.len() == old(stages)@.len(),
        forall|i: int|
            0 <= i < bindings@.len() ==> #[trigger] final(stages)@[i] == advanced(
                bindings@[i],
                old(stages)@[i],
                targets@,
                true,
            ),
        axes_view(final(axes)@) == aggregate(
            axes_view(old(axes)@),
            bindings@,
            old(stages)@,
            targets@,
            true,
            bindings@.len() as int,
        ),
{
    aggregate_pass(bindings, stages, targets, axes, true);
}

proof fn lemma_gather_inert(axes: Seq<AxisView>, b: SideBinding, st: Stage, ts: Seq<ArrowTag>, fixed: bool, m: int)
    requires
        m <= ts.len(),
        !matched(b, st, ts, fixed),
    ensures
        gather(axes, b, st, ts, fixed, m) == axes,
    decreases m,
{
    if m > 0 {
        lemma_gather_inert(axes, b, st, ts, fixed, m - 1);
        assert(!contributes(b, st, ts[m - 1], fixed));
    }
}

/// The stages after one aggregation pass.
pub open spec fn advanced_all(bs: Seq<SideBinding>, sts: Seq<Stage>, ts: Seq<ArrowTag>, fixed: bool) -> Seq<Stage> {
    Seq::new(bs.len(), |i: int| advanced(bs[i], sts[i], ts, fixed))
}

proof fn lemma_aggregate_inert(
    axes: Seq<AxisView>,
    bs: Seq<SideBinding>,
    sts: Seq<Stage>,
    ts: Seq<ArrowTag>,
    fixed: bool,
    n: int,
)
    requires
        sts.len() == bs.len(),
        n <= bs.len(),
    ensures
        aggregate(axes, bs, advanced_all(bs, sts, ts, fixed), ts, fixed, n) == axes,
    decreases n,
{
    if n > 0 {
        let sts1 = advanced_all(bs, sts, ts, fixed);
        lemma_aggregate_inert(axes, bs, sts, ts, fixed, n - 1);
        let b = bs[n - 1];
        if matched(b, sts[n - 1], ts, fixed) {
            assert(sts1[n - 1] == Stage::Aggregated);
        }
        assert(!matched(b, sts1[n - 1], ts, fixed));
        lemma_gather_inert(axes, b, sts1[n - 1], ts, fixed, ts.len() as int);
    }
}

/// Aggregation is idempotent: a second pass over the same bindings, with the
/// stages that the first pass left, and the same targets, adds no axis,
/// changes no range or condition list, and advances no stage.
pub proof fn lemma_build_axes_idempotent(
    axes: Seq<AxisView>,
    bs: Seq<SideBinding>,
    sts: Seq<Stage>,
    ts: Seq<ArrowTag>,
    fixed: bool,
)
    requires
        sts.len() == bs.len(),
    ensures
        ({
            let axes1 = aggregate(axes, bs, sts, ts, fixed, bs.len() as int);
            let sts1 = advanced_all(bs, sts, ts, fixed);
            &&& aggregate(axes1, bs, sts1, ts, fixed, bs.len() as int) == axes1
            &&& advanced_all(bs, sts1, ts, fixed) == sts1
        }),
{
    let axes1 = aggregate(axes, bs, sts, ts, fixed, bs.len() as int);
    let sts1 = advanced_all(bs, sts, ts, fixed);
    lemma_aggregate_inert(axes1, bs, sts, ts, fixed, bs.len() as int);
    assert forall|i: int| 0 <= i < bs.len() implies advanced(bs[i], sts1[i], ts, fixed) == sts1[i] by {
        if matched(bs[i], sts[i], ts, fixed) {
            assert(sts1[i] == Stage::Aggregated);
        }
        assert(!matched(bs[i], sts1[i], ts, fixed));
    }
    assert(advanced_all(bs, sts1, ts, fixed) =~= sts1);
}

/// Whether some label of `v` equals `s`.
pub fn contains_label(v: &Vec<String>, s: &String) -> (r: bool)
    ensures
        r == labels(v@).contains(s@),
{
    let ghost l = labels(v@);
    let mut i: usize = 0;
    while i < v.len()
        invariant
            0 <= i <= v@.len(),
            l == labels(v@),
            forall|k: int| 0 <= k < i ==> l[k] != s@,
        decreases v@.len() - i,
    {
        if v[i] == *s {
            assert(l[i as int] == s@);
            return true;
        }
        i += 1;
    }
    false
}

/// No two axes share an element, side and kind.
pub open spec fn distinct_keys(axes: Seq<AxisView>) -> bool {
    forall|i: int, j: int|
        0 <= i < j < axes.len() ==> !key_matches(#[trigger] axes[j], (#[trigger] axes[i]).id, axes[i].side, axes[i].fixed)
}

proof fn lemma_first_match(axes: Seq<AxisView>, id: Seq<char>, side: Side, fixed: bool, i: int)
    requires
        0 <= i < axes.len(),
        key_matches(axes[i], id, side, fixed),
    ensures
        exists|k: int|
            0 <= k < axes.len() && key_matches(axes[k], id, side, fixed) && forall|m: int|
                0 <= m < k ==> !key_matches(axes[m], id, side, fixed),
    decreases i,
{
    if exists|m: int| 0 <= m < i && key_matches(axes[m], id, side, fixed) {
        let m = choose|m: int| 0 <= m < i && key_matches(axes[m], id, side, fixed);
        lemma_first_match(axes, id, side, fixed, m);
    }
}

proof fn lemma_find_axis(axes: Seq<AxisView>, id: Seq<char>, side: Side, fixed: bool)
    ensures
        find_axis(axes, id, side, fixed) >= 0 ==> find_axis(axes, id, side, fixed) < axes.len()
            && key_matches(axes[find_axis(axes, id, side, fixed)], id, side, fixed),
        find_axis(axes, id, side, fixed) < 0 ==> forall|i: int| 0 <= i < axes.len() ==> !key_matches(#[trigger] axes[i], id, side, fixed),
{
    if exists|i: int| 0 <= i < axes.len() && key_matches(axes[i], id, side, fixed) {
        let i = choose|i: int| 0 <= i < axes.len() && key_matches(axes[i], id, side, fixed);
        lemma_first_match(axes, id, side, fixed, i);
    }
}

proof fn lemma_merge_distinct(axes: Seq<AxisView>, b: SideBinding, t: ArrowTag, fixed: bool)
    requires
        distinct_keys(axes),
    ensures
        distinct_keys(merge_spec(axes, b, t, fixed)),
{
    lemma_find_axis(axes, t.id@, b.geom.side, fixed);
    let r = merge_spec(axes, b, t, fixed);
    assert forall|i: int, j: int| 0 <= i < j < r.len() implies !key_matches(#[trigger] r[j], (#[trigger] r[i]).id, r[i].side, r[i].fixed) by {
        if j == axes.len() {
            assert(!key_matches(axes[i], t.id@, b.geom.side, fixed));
        } else {
            assert(!key_matches(axes[j], axes[i].id, axes[i].side, axes[i].fixed));
        }
    }
}

proof fn lemma_gather_distinct(axes: Seq<AxisView>, b: SideBinding, st: Stage, ts: Seq<ArrowTag>, fixed: bool, m: int)
    requires
        distinct_keys(axes),
    ensures
        distinct_keys(gather(axes, b, st, ts, fixed, m)),
    decreases m,
{
    if m > 0 {
        lemma_gather_distinct(axes, b, st, ts, fixed, m - 1);
        if contributes(b, st, ts[m - 1], fixed) {
            lemma_merge_distinct(gather(axes, b, st, ts, fixed, m - 1), b, ts[m - 1], fixed);
        }
    }
}

/// Aggregation keeps shared axes unique: starting from axes with distinct
/// keys (element, side, kind), every pass ends with distinct keys, so each
/// element and side has at most one scaled and one fixed axis.
pub proof fn lemma_aggregate_distinct(
    axes: Seq<AxisView>,
    bs: Seq<SideBinding>,
    sts: Seq<Stage>,
    ts: Seq<ArrowTag>,
    fixed: bool,
    n: int,
)
    requires
        distinct_keys(axes),
    ensures
        distinct_keys(aggregate(axes, bs, sts, ts, fixed, n)),
    decreases n,
{
    if n > 0 {
        lemma_aggregate_distinct(axes, bs, sts, ts, fixed, n - 1);
        lemma_gather_distinct(aggregate(axes, bs, sts, ts, fixed, n - 1), bs[n - 1], sts[n - 1], ts, fixed, ts.len() as int);
    }
}

/// Some scaled axis keyed by `id` and `side` spans at least `[lo, hi]`.
pub open spec fn covers(axes: Seq<AxisView>, id: Seq<char>, side: Side, lo: int, hi: int) -> bool {
    exists|q: int| 0 <= q < axes.len() && key_matches(#[trigger] axes[q], id, side, false) && axes[q].lo <= lo && hi <= axes[q].hi
}

proof fn lemma_merge_keeps_cover(axes: Seq<AxisView>, b: SideBinding, t: ArrowTag, id: Seq<char>, side: Side, lo: int, hi: int)
    requires
        covers(axes, id, side, lo, hi),
    ensures
        covers(merge_spec(axes, b, t, false), id, side, lo, hi),
{
    let q = choose|q: int| 0 <= q < axes.len() && key_matches(#[trigger] axes[q], id, side, false) && axes[q].lo <= lo && hi <= axes[q].hi;
    lemma_find_axis(axes, t.id@, b.geom.side, false);
    let r = merge_spec(axes, b, t, false);
    assert(key_matches(r[q], id, side, false) && r[q].lo <= lo && hi <= r[q].hi);
}

proof fn lemma_merge_covers(axes: Seq<AxisView>, b: SideBinding, t: ArrowTag)
    requires
        samples_for(b, t.id@) is Some,
    ensures
        ({
            let s = samples_for(b, t.id@).unwrap();
            covers(merge_spec(axes, b, t, false), t.id@, b.geom.side, least(s) as int, greatest(s) as int)
        }),
{
    lemma_find_axis(axes, t.id@, b.geom.side, false);
    let r = merge_spec(axes, b, t, false);
    let j = find_axis(axes, t.id@, b.geom.side, false);
    if j >= 0 {
        assert(key_matches(r[j], t.id@, b.geom.side, false));
    } else {
        assert(key_matches(r[axes.len() as int], t.id@, b.geom.side, false));
    }
}

proof fn lemma_gather_keeps_cover(axes: Seq<AxisView>, b: SideBinding, st: Stage, ts: Seq<ArrowTag>, m: int, id: Seq<char>, side: Side, lo: int, hi: int)
    requires
        covers(axes, id, side, lo, hi),
    ensures
        covers(gather(axes, b, st, ts, false, m), id, side, lo, hi),
    decreases m,
{
    if m > 0 {
        lemma_gather_keeps_cover(axes, b, st, ts, m - 1, id, side, lo, hi);
        if contributes(b, st, ts[m - 1], false) {
            lemma_merge_keeps_cover(gather(axes, b, st, ts, false, m - 1), b, ts[m - 1], id, side, lo, hi);
        }
    }
}

proof fn lemma_gather_covers(axes: Seq<AxisView>, b: SideBinding, st: Stage, ts: Seq<ArrowTag>, m: int, k: int)
    requires
        0 <= k < m <= ts.len(),
        contributes(b, st, ts[k], false),
    ensures
        ({
            let s = samples_for(b, ts[k].id@).unwrap();
            covers(gather(axes, b, st, ts, false, m), ts[k].id@, b.geom.side, least(s) as int, greatest(s) as int)
        }),
    decreases m,
{
    let s = samples_for(b, ts[k].id@).unwrap();
    if k == m - 1 {
        lemma_merge_covers(gather(axes, b, st, ts, false, m - 1), b, ts[k]);
    } else {
        lemma_gather_covers(axes, b, st, ts, m - 1, k);
        if contributes(b, st, ts[m - 1], false) {
            lemma_merge_keeps_cover(
                gather(axes, b, st, ts, false, m - 1),
                b,
                ts[m - 1],
                ts[k].id@,
                b.geom.side,
                least(s) as int,
                greatest(s) as int,
            );
        }
    }
}

proof fn lemma_aggregate_keeps_cover(
    axes: Seq<AxisView>,
    bs: Seq<SideBinding>,
    sts: Seq<Stage>,
    ts: Seq<ArrowTag>,
    n: int,
    m: int,
    id: Seq<char>,
    side: Side,
    lo: int,
    hi: int,
)
    requires
        m <= n,
        covers(aggregate(axes, bs, sts, ts, false, m), id, side, lo, hi),
    ensures
        covers(aggregate(axes, bs, sts, ts, false, n), id, side, lo, hi),
    decreases n - m,
{
    if n > m {
        lemma_aggregate_keeps_cover(axes, bs, sts, ts, n - 1, m, id, side, lo, hi);
        lemma_gather_keeps_cover(aggregate(axes, bs, sts, ts, false, n - 1), bs[n - 1], sts[n - 1], ts, ts.len() as int, id, side, lo, hi);
    }
}

/// The range of a shared axis is a union: after aggregation, every sample
/// set that a binding brought to an element's scaled axis lies within that
/// axis's range.
pub proof fn lemma_axis_covers_contributions(
    axes: Seq<AxisView>,
    bs: Seq<SideBinding>,
    sts: Seq<Stage>,
    ts: Seq<ArrowTag>,
    i: int,
    k: int,
)
    requires
        0 <= i < bs.len(),
        0 <= k < ts.len(),
        contributes(bs[i], sts[i], ts[k], false),
    ensures
        ({
            let s = samples_for(bs[i], ts[k].id@).unwrap();
            covers(aggregate(axes, bs, sts, ts, false, bs.len() as int), ts[k].id@, bs[i].geom.side, least(s) as int, greatest(s) as int)
        }),
{
    let s = samples_for(bs[i], ts[k].id@).unwrap();
    lemma_gather_covers(aggregate(axes, bs, sts, ts, false, i), bs[i], sts[i], ts, ts.len() as int, k);
    assert(aggregate(axes, bs, sts, ts, false, i + 1) == gather(aggregate(axes, bs, sts, ts, false, i), bs[i], sts[i], ts, false, ts.len() as int));
    lemma_aggregate_keeps_cover(axes, bs, sts, ts, bs.len() as int, i + 1, ts[k].id@, bs[i].geom.side, least(s) as int, greatest(s) as int);
}

} // verus!
