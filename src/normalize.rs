//! Vertical scaling of side plots to a common height per side.

use vstd::prelude::*;
use crate::plot::{encodings_view, unit_ratio, Encoding, EncodingView, Ratio, Shape, ShapeView};
use crate::settings::UiState;

verus! {

/// The tallest height of a profile; zero when there is none.
pub open spec fn peak(h: Seq<u128>) -> u128
    decreases h.len(),
{
    if h.len() == 0 {
        0
    } else {
        let p = peak(h.drop_last());
        if h.last() > p {
            h.last()
        } else {
            p
        }
    }
}

/// The encoding with its vertical scale set so that its tallest height meets
/// the target height of its side, and its labels scaled back by the inverse.
/// Fixed-height encodings and box-and-point glyphs are left as they are;
/// profiles with nothing above the baseline get a unit scale.
pub open spec fn normalized(e: EncodingView, ui: UiState) -> EncodingView {
    if e.fixed {
        e
    } else {
        match e.shape {
            ShapeView::Profile { heights, .. } => if peak(heights) == 0 {
                EncodingView { scale_y: unit_ratio(), label_scale_y: unit_ratio(), ..e }
            } else {
                let p = peak(heights);
                let t = ui.target_height(e.side) as u128;
                EncodingView {
                    scale_y: Ratio { num: t, den: p },
                    label_scale_y: if t == 0 {
                        unit_ratio()
                    } else {
                        Ratio { num: p, den: t }
                    },
                    ..e
                }
            },
            ShapeView::Box { .. } => e,
        }
    }
}

proof fn lemma_peak_bound(h: Seq<u128>)
    ensures
        forall|i: int| 0 <= i < h.len() ==> #[trigger] h[i] <= peak(h),
        h.len() > 0 ==> h.contains(peak(h)),
    decreases h.len(),
{
    if h.len() > 0 {
        lemma_peak_bound(h.drop_last());
        assert forall|i: int| 0 <= i < h.len() implies #[trigger] h[i] <= peak(h) by {
            if i < h.len() - 1 {
                assert(h[i] == h.drop_last()[i]);
            }
        }
        if h.drop_last().len() > 0 && peak(h) == peak(h.drop_last()) {
            let k = choose|k: int| 0 <= k < h.drop_last().len() && h.drop_last()[k] == peak(h.drop_last());
            assert(h[k] == peak(h));
        } else {
            assert(h[h.len() - 1] == peak(h));
        }
    }
}

/// The tallest of the heights; zero when there are none.
pub fn profile_peak(h: &Vec<u128>) -> (r: u128)
    ensures
        r == peak(h@),
        forall|i: int| 0 <= i < h@.len() ==> #[trigger] h@[i] <= r,
{
    let mut r: u128 = 0;
    let mut i: usize = 0;
    while i < h.len()
        invariant
            0 <= i <= h@.len(),
            r == peak(h@.take(i as int)),
        decreases h@.len() - i,
    {
        proof {
            assert(h@.take(i as int + 1).drop_last() =~= h@.take(i as int));
        }
        if h[i] > r {
            r = h[i];
        }
        i += 1;
    }
    proof {
        assert(h@.take(h@.len() as int) =~= h@);
        lemma_peak_bound(h@);
    }
    r
}

fn normalize_one(e: &mut Encoding, ui: &UiState)
    ensures
        final(e)@ == normalized(old(e)@, *ui),
{
    if e.fixed {
        return;
    }
    let scales: Option<(Ratio, Ratio)> = match &e.shape {
        Shape::Profile(p) => {
            let pk = profile_peak(&p.heights);
            if pk == 0 {
                Some((Ratio { num: 1, den: 1 }, Ratio { num: 1, den: 1 }))
            } else {
                let t: u128 = ui.side_height(e.tag.side) as u128;
                let label = if t == 0 {
                    Ratio { num: 1, den: 1 }
                } else {
                    Ratio { num: pk, den: t }
                };
                Some((Ratio { num: t, den: pk }, label))
            }
        },
        Shape::Box(_) => None,
    };
    if let Some((scale, label)) = scales {
        e.scale_y = scale;
        e.label_scale_y = label;
    }
}

/// Scales every profile so that its tallest height meets the target height
/// of its side, and its labels by the inverse factor so that text keeps its
/// proportions. Box-and-point glyphs and other fixed-height encodings are
/// left untouched.
pub fn normalize_histogram_height(encodings: &mut Vec<Encoding>, ui: &UiState)
    ensures
        encodings_view(final(encodings)@) == encodings_view(old(encodings)@).map_values(
            |e: EncodingView| normalized(e, *ui),
        ),
{
    let ghost v0 = encodings_view(encodings@);
    let mut i: usize = 0;
    while i < encodings.len()
        invariant
            0 <= i <= encodings@.len(),
            encodings@.len() == v0.len(),
            forall|k: int| 0 <= k < i ==> #[trigger] encodings@[k]@ == normalized(v0[k], *ui),
            forall|k: int| i <= k < v0.len() ==> #[trigger] encodings@[k]@ == v0[k],
        decreases encodings@.len() - i,
    {
        let mut e = encodings.remove(i);
        normalize_one(&mut e, ui);
        encodings.insert(i, e);
        i += 1;
    }
    proof {
        assert(encodings_view(encodings@) =~= v0.map_values(|e: EncodingView| normalized(e, *ui)));
    }
}

/// After normalization, the tallest height of every scalable profile with
/// something above the baseline, multiplied by its scale, is exactly the
/// target height of its side; its labels are scaled by the inverse factor.
pub proof fn lemma_normalized_peak(e: EncodingView, ui: UiState)
    requires
        !e.fixed,
        e.shape is Profile,
        peak(e.shape->Profile_heights) > 0,
    ensures
        ({
            let n = normalized(e, ui);
            let p = peak(e.shape->Profile_heights) as int;
            let t = ui.target_height(e.side) as int;
            &&& p * (n.scale_y.num as int) / (n.scale_y.den as int) == t
            &&& t > 0 ==> (n.scale_y.num as int) * (n.label_scale_y.num as int) == (n.scale_y.den as int) * (n.label_scale_y.den as int)
        }),
{
    let p = peak(e.shape->Profile_heights) as int;
    let t = ui.target_height(e.side) as int;
    assert((p * t) / p == t) by (nonlinear_arith)
        requires
            p > 0,
    ;
    assert(t * p == p * t) by (nonlinear_arith);
}

/// Normalization leaves fixed-height encodings and box-and-point glyphs
/// exactly as they were.
pub proof fn lemma_fixed_untouched(e: EncodingView, ui: UiState)
    requires
        e.fixed || e.shape is Box,
    ensures
        normalized(e, ui) == e,
{
}

} // verus!
