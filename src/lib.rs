//! Data-to-visual encoding for metabolic maps: scales, shared plot axes,
//! side-plot geometry, height normalization and condition-driven visibility.
//!
//! All quantities are integers: data values are fixed-point numbers chosen by
//! the caller, geometry is in thousandths of a map unit, hues are in tenths of
//! a degree and saturation, value and alpha are in thousandths.

mod aes;
mod axis;
mod conditions;
mod geom;
mod gradient;
mod hover;
mod normalize;
mod plot;
mod render;
mod scale;
mod settings;
mod visibility;

pub use aes::{
    above_all, all_greatest, all_least, below_all, color_at, color_legend_arrow,
    color_legend_circle, color_legend_spec, dist_of, dist_range, drawn_under, drives, drives_dist,
    feeds_color_legend, in_some, last_color_source, mean, mean_spec, nested, plot_arrow_color,
    plot_arrow_size, plot_arrow_size_dist, plot_metabolite_color, plot_metabolite_size, size_at,
    size_dist_at, sum_spec, unset_color, values_of, ARROW_WIDTH, Channel, ChannelBinding, GeomKind,
    METABOLITE_RADIUS,
};
pub use axis::{
    advanced, advanced_all, covers, distinct_keys, lemma_axis_covers_contributions, lemma_aggregate_distinct, aggregate, anchor_for, anchor_spec, axes_view, build_axes,
    build_point_axes, condition_view, contributes, find_axis, gather, greatest, index_of, is_side,
    key_matches, labels, least, lemma_build_axes_idempotent, local_range, matched, merge_spec,
    position, pushed, sample_range, samples_for, Aesthetics, Anchor, ArrowTag, AWAY, AxisView,
    COORD_MAX, Samples, SideBinding, UNIT, Xaxis,
};
pub use conditions::{
    dedup, fill_conditions, has_new_label, offered, tagged,
};
pub use geom::{
    GeomArrow, GeomHist, GeomKde, GeomMetabolite, HistPlot, HistTag, Side, Stage,
};
pub use gradient::{
    column_color, paint_legend, painted_byte, rgb_spec, rgba8_spec, to_byte, to_rgba8, SECTOR,
};
pub use hover::{
    all_popups, build_hover_axes, find_node, hover_contributes, hover_gather, hover_limits,
    hover_matched, hover_ranges, hovered, merge_range, off_condition, plot_hover_hist, popup_anchor,
    popup_concerns, popup_eligible, popup_encoding, popup_profile, popup_ready, popup_renders,
    popups_of, show_hover, Hover, HOVER_COORD_MAX, POPUP_OFFSET,
};
pub use normalize::{
    lemma_fixed_untouched, lemma_normalized_peak, normalize_histogram_height, normalized, peak, profile_peak,
};
pub use plot::{
    all_boxes, all_profiles, box_eligible, box_encoding, box_value, boxes_of, concerns,
    encodings_view, follow_the_axes, followed_anchor, follows, hits, lemma_empty_samples_not_rendered,
    plot_side_box, plot_side_hist, point_values, profile_eligible, profile_encoding,
    profile_renders, profile_spec, profiles_of, ready, unit_ratio, BoxGlyph, Encoding, EncodingView,
    Ratio, Shape, ShapeView,
};
pub use render::{
    bandwidth, bin_count, bin_of, grid_x, hist_spec, kde_spec, kde_sum, kernel, plot_hist, plot_kde,
    KDE_POINTS, KDE_SPAN, POPUP_BINS, POPUP_WIDTH, Profile, SIDE_BINS,
};
pub use scale::{
    abs_int, fraction_of, fraction_spec, hue_delta, hue_mix_spec, lemma_lerp_between, lerp,
    lerp_hsv, lerp_hsv_spec, lerp_spec, max_sample, min_sample, mix_spec, scaled, trunc_div,
    Fraction, FULL, HALF_TURN, Hsva, TURN,
};
pub use settings::{entry_keys, key_of, lookup_spec, or_color, ColorTable, UiState};
pub use visibility::{
    all_label, box_legend_spec, color_legend_box, color_legend_histograms, feeds_box_legend,
    filter_histograms, filtered, first_scaled_axis, has_side_data, hist_legend_spec, is_all,
    is_shown, last_box_source, legend_image, range_spec, scaled_on, shown_under, HistLegend, Legend,
    LegendState,
};
