use shu::{
    fraction_of, lerp, lerp_hsv, max_sample, mean, min_sample, to_rgba8, Fraction, Hsva,
};

fn hsva(h: u32, s: u32, v: u32, a: u32) -> Hsva {
    Hsva { h, s, v, a }
}

#[test]
fn lerp_hits_both_endpoints() {
    assert_eq!(lerp(3, 3, 9, 20, 60), 20);
    assert_eq!(lerp(9, 3, 9, 20, 60), 60);
    assert_eq!(lerp(-5, -5, 7, 100, -100), 100);
    assert_eq!(lerp(7, -5, 7, 100, -100), -100);
}

#[test]
fn lerp_maps_affinely() {
    assert_eq!(lerp(5, 0, 10, 20, 60), 40);
    assert_eq!(lerp(1, 0, 3, 0, 10), 3);
    assert_eq!(lerp(1, 0, 3, 10, 0), 7);
}

#[test]
fn lerp_degenerate_range_gives_midpoint() {
    assert_eq!(lerp(4, 4, 4, 20, 60), 40);
    assert_eq!(lerp(4, 4, 4, -3, 0), -2);
}

#[test]
fn lerp_hsv_endpoints_are_the_colors() {
    let c1 = hsva(100, 200, 300, 400);
    let c2 = hsva(3000, 900, 800, 1000);
    assert_eq!(lerp_hsv(Fraction::zero(), c1, c2), c1);
    assert_eq!(lerp_hsv(Fraction::one(), c1, c2), c2);
    assert_eq!(lerp_hsv(Fraction { num: 7, den: 7 }, c1, c2), c2);
}

#[test]
fn lerp_hsv_takes_the_short_way_round() {
    // hues of 0.05 and 0.95 of a turn
    let c1 = hsva(180, 500, 500, 1000);
    let c2 = hsva(3420, 500, 500, 1000);
    let mid = lerp_hsv(Fraction { num: 1, den: 2 }, c1, c2);
    assert_eq!(mid.h, 0);
    let back = lerp_hsv(Fraction { num: 1, den: 2 }, c2, c1);
    assert_eq!(back.h, 0);
}

#[test]
fn lerp_hsv_mixes_linearly_without_wrap() {
    let c1 = hsva(1000, 0, 1000, 0);
    let c2 = hsva(2000, 1000, 0, 1000);
    let mid = lerp_hsv(Fraction { num: 1, den: 4 }, c1, c2);
    assert_eq!(mid, hsva(1250, 250, 750, 250));
}

#[test]
fn sample_extremes() {
    let v = vec![4, -2, 9, 0];
    assert_eq!(min_sample(&v), -2);
    assert_eq!(max_sample(&v), 9);
}

#[test]
fn fraction_within_range() {
    assert_eq!(fraction_of(5, 0, 10), Fraction { num: 5, den: 10 });
    assert_eq!(fraction_of(3, 3, 3), Fraction { num: 1, den: 2 });
}

#[test]
fn mean_rounds_toward_zero() {
    assert_eq!(mean(&vec![1, 2, 4], 1, 4), 2);
    assert_eq!(mean(&vec![-1, -2, -4], -4, -1), -2);
    assert_eq!(mean(&vec![7], 7, 7), 7);
}

#[test]
fn rgba_of_primary_colors() {
    assert_eq!(to_rgba8(hsva(0, 1000, 1000, 1000)), [255, 0, 0, 255]);
    assert_eq!(to_rgba8(hsva(1200, 1000, 1000, 1000)), [0, 255, 0, 255]);
    assert_eq!(to_rgba8(hsva(2400, 1000, 1000, 0)), [0, 0, 255, 0]);
    assert_eq!(to_rgba8(hsva(0, 0, 1000, 1000)), [255, 255, 255, 255]);
}
