use shu::{
    build_axes, follow_the_axes, normalize_histogram_height, plot_hist, plot_hover_hist, plot_kde,
    plot_side_box, plot_side_hist, profile_peak, Aesthetics, Anchor, ArrowTag, Encoding, GeomHist,
    GeomKde, HistPlot, HistTag, Hover, Profile, Ratio, SideBinding, Samples, Shape, Side, Stage,
    UiState, Xaxis,
};

fn arrow(id: &str, node_id: u64) -> ArrowTag {
    ArrowTag {
        id: id.to_string(),
        node_id,
        x: 0,
        y: 0,
        dir_x: 0,
        dir_y: 1000,
        length: 300,
        saved_left: None,
        saved_right: None,
    }
}

fn binding(ids: &[&str], samples: Samples, cond: Option<&str>, geom: GeomHist) -> SideBinding {
    SideBinding {
        aes: Aesthetics {
            identifiers: ids.iter().map(|s| s.to_string()).collect(),
            condition: cond.map(|c| c.to_string()),
        },
        samples,
        geom,
        popup: false,
    }
}

fn profile_encoding(heights: Vec<u128>, side: Side, fixed: bool) -> Encoding {
    Encoding {
        shape: Shape::Profile(Profile { heights, width: 100, curve: false }),
        tag: HistTag { side, condition: None, node_id: 1 },
        anchor: Anchor { x: 0, y: 0, facing_x: 0, facing_y: 1000 },
        color: UiState::default().color_left.default,
        fixed,
        scale_y: Ratio { num: 1, den: 1 },
        label_scale_y: Ratio { num: 1, den: 1 },
        visible: true,
        popup: false,
    }
}

#[test]
fn histogram_counts_samples_per_bin() {
    let p = plot_hist(&vec![1, 2, 3], 5, 100, (0, 5)).unwrap();
    assert_eq!(p.heights, vec![0, 1, 1, 1, 0]);
    assert_eq!(p.width, 100);
    assert!(!p.curve);
    let q = plot_hist(&vec![0, 5, 5, 9], 2, 10, (0, 5)).unwrap();
    assert_eq!(q.heights, vec![1, 2]);
}

#[test]
fn histogram_of_nothing_is_no_geometry() {
    assert!(plot_hist(&vec![], 30, 100, (0, 5)).is_none());
    assert!(plot_hist(&vec![1], 30, 100, (2, 2)).is_none());
    assert!(plot_hist(&vec![1], 0, 100, (0, 2)).is_none());
}

#[test]
fn density_uses_a_triangular_kernel() {
    let p = plot_kde(&vec![0], 3, 50, (0, 32)).unwrap();
    assert_eq!(p.heights, vec![2, 0, 0]);
    assert!(p.curve);
    let q = plot_kde(&vec![16, 17], 3, 50, (0, 32)).unwrap();
    assert_eq!(q.heights, vec![0, 3, 0]);
    assert!(plot_kde(&vec![], 200, 50, (0, 32)).is_none());
}

#[test]
fn empty_sample_set_stays_retryable() {
    let bindings = vec![
        binding(&["r1"], Samples::Distribution(vec![vec![1, 4]]), Some("a"), GeomHist::left()),
        binding(&["r1"], Samples::Distribution(vec![vec![]]), Some("b"), GeomHist::left()),
    ];
    let mut stages = vec![Stage::Pending; 2];
    let mut axes: Vec<Xaxis> = Vec::new();
    build_axes(&bindings, &mut stages, &vec![arrow("r1", 1)], &mut axes);
    assert_eq!(stages, vec![Stage::Aggregated, Stage::Pending]);
    // the second binding reaches the rendering pass as if it had been aggregated
    let mut stages = vec![Stage::Aggregated, Stage::Aggregated];
    let ui = UiState::default();
    let mut out: Vec<Encoding> = Vec::new();
    plot_side_hist(&bindings, &mut stages, &axes, &ui, &mut out);
    assert_eq!(out.len(), 1);
    assert_eq!(stages, vec![Stage::Rendered, Stage::Aggregated]);
    assert_eq!(out[0].tag.condition, Some("a".to_string()));
    assert_eq!(out[0].tag.side, Side::Left);
    match &out[0].shape {
        Shape::Profile(p) => {
            assert_eq!(p.heights.len(), 30);
            assert_eq!(p.width, 300);
            assert_eq!(p.heights.iter().sum::<u128>(), 2);
        }
        Shape::Box(_) => panic!("expected a profile"),
    }
}

#[test]
fn empty_samples_on_a_box_axis_block_rendering() {
    let box_geom = GeomHist::left().with_plot(HistPlot::BoxPoint);
    let bindings = vec![
        binding(&["r1"], Samples::Point(vec![3]), None, box_geom),
        binding(&["r1", "r2"], Samples::Distribution(vec![vec![], vec![1, 5]]), None, GeomHist::left()),
    ];
    let mut stages = vec![Stage::Pending; 2];
    let targets = vec![arrow("r1", 1), arrow("r2", 2)];
    let mut axes: Vec<Xaxis> = Vec::new();
    shu::build_point_axes(&bindings, &mut stages, &targets, &mut axes);
    build_axes(&bindings, &mut stages, &targets, &mut axes);
    assert_eq!(stages, vec![Stage::Aggregated, Stage::Aggregated]);
    let mut out: Vec<Encoding> = Vec::new();
    plot_side_hist(&bindings, &mut stages, &axes, &UiState::default(), &mut out);
    assert!(out.is_empty());
    assert_eq!(stages, vec![Stage::Aggregated, Stage::Aggregated]);
}

#[test]
fn box_request_on_distribution_is_skipped() {
    let geom = GeomHist::left().with_plot(HistPlot::BoxPoint);
    let bindings = vec![binding(&["r1"], Samples::Distribution(vec![vec![1, 4]]), None, geom)];
    let mut stages = vec![Stage::Pending];
    let mut axes: Vec<Xaxis> = Vec::new();
    build_axes(&bindings, &mut stages, &vec![arrow("r1", 1)], &mut axes);
    let mut out: Vec<Encoding> = Vec::new();
    plot_side_hist(&bindings, &mut stages, &axes, &UiState::default(), &mut out);
    assert!(out.is_empty());
    assert_eq!(stages, vec![Stage::Aggregated]);
}

#[test]
fn density_binding_renders_a_curve() {
    let geom = GeomKde::right().to_hist();
    let bindings = vec![binding(&["r1"], Samples::Distribution(vec![vec![0, 10]]), None, geom)];
    let mut stages = vec![Stage::Pending];
    let mut axes: Vec<Xaxis> = Vec::new();
    build_axes(&bindings, &mut stages, &vec![arrow("r1", 1)], &mut axes);
    let mut out: Vec<Encoding> = Vec::new();
    plot_side_hist(&bindings, &mut stages, &axes, &UiState::default(), &mut out);
    assert_eq!(out.len(), 1);
    match &out[0].shape {
        Shape::Profile(p) => {
            assert!(p.curve);
            assert_eq!(p.heights.len(), 200);
        }
        Shape::Box(_) => panic!("expected a profile"),
    }
}

#[test]
fn boxes_fan_out_by_condition() {
    let geom = GeomHist::left().with_plot(HistPlot::BoxPoint);
    let bindings = vec![
        binding(&["r1", "r2"], Samples::Point(vec![0, 10]), Some("a"), geom),
        binding(&["r1"], Samples::Point(vec![5]), Some("b"), geom),
    ];
    let mut stages = vec![Stage::Pending; 2];
    let mut axes: Vec<Xaxis> = Vec::new();
    shu::build_point_axes(&bindings, &mut stages, &vec![arrow("r1", 1)], &mut axes);
    let ui = UiState::default();
    let mut out: Vec<Encoding> = Vec::new();
    plot_side_box(&bindings, &mut stages, &axes, &ui, &mut out);
    assert_eq!(out.len(), 2);
    assert_eq!(stages, vec![Stage::Rendered, Stage::Rendered]);
    match (&out[0].shape, &out[1].shape) {
        (Shape::Box(g0), Shape::Box(g1)) => {
            assert_eq!((g0.slot, g0.slots), (0, 2));
            assert_eq!((g1.slot, g1.slots), (1, 2));
            // the minimum of its binding gets the minimum size; a lone value the middle one
            assert_eq!(g0.height, 20);
            assert_eq!(g1.height, 40);
        }
        _ => panic!("expected boxes"),
    }
    // value 0 is the minimum of its binding: the color is the minimum color
    assert_eq!(out[0].color, ui.min_reaction_color);
    assert!(out[0].fixed);
}

#[test]
fn heights_normalize_to_the_target() {
    let mut encodings = vec![
        profile_encoding(vec![3, 10, 7], Side::Left, false),
        profile_encoding(vec![40, 1], Side::Left, false),
        profile_encoding(vec![40, 1], Side::Left, true),
    ];
    encodings[2].scale_y = Ratio { num: 3, den: 7 };
    let ui = UiState::default();
    normalize_histogram_height(&mut encodings, &ui);
    assert_eq!(encodings[0].scale_y, Ratio { num: 100, den: 10 });
    assert_eq!(encodings[1].scale_y, Ratio { num: 100, den: 40 });
    assert_eq!(encodings[0].label_scale_y, Ratio { num: 10, den: 100 });
    assert_eq!(encodings[1].label_scale_y, Ratio { num: 40, den: 100 });
    assert_eq!(encodings[2].scale_y, Ratio { num: 3, den: 7 });
    assert_eq!(encodings[2].label_scale_y, Ratio { num: 1, den: 1 });
    for e in &encodings[..2] {
        if let Shape::Profile(p) = &e.shape {
            let peak = profile_peak(&p.heights);
            assert_eq!(peak * e.scale_y.num / e.scale_y.den, 100);
        }
    }
}

#[test]
fn plots_follow_their_axis() {
    let bindings = vec![binding(&["r1"], Samples::Distribution(vec![vec![1, 4]]), None, GeomHist::left())];
    let mut stages = vec![Stage::Pending];
    let mut axes: Vec<Xaxis> = Vec::new();
    build_axes(&bindings, &mut stages, &vec![arrow("r1", 1)], &mut axes);
    let mut out: Vec<Encoding> = Vec::new();
    plot_side_hist(&bindings, &mut stages, &axes, &UiState::default(), &mut out);
    let moved = Anchor { x: 77, y: 88, facing_x: 1000, facing_y: 0 };
    axes[0].anchor = moved;
    follow_the_axes(&axes, &mut out);
    assert_eq!(out[0].anchor, moved);
}

#[test]
fn popups_are_drawn_hidden_at_their_element() {
    let mut b = binding(&["m1"], Samples::Distribution(vec![vec![1, 2, 9]]), None, GeomHist::left());
    b.popup = true;
    let bindings = vec![b];
    let mut stages = vec![Stage::Pending];
    let mut hovers = vec![Hover { id: "m1".to_string(), node_id: 2, x: 10, y: 20, xlimits: None }];
    shu::build_hover_axes(&bindings, &mut stages, &mut hovers);
    let mut out: Vec<Encoding> = Vec::new();
    plot_hover_hist(&bindings, &mut stages, &hovers, &UiState::default(), &mut out);
    assert_eq!(out.len(), 1);
    assert_eq!(stages, vec![Stage::Rendered]);
    assert!(!out[0].visible);
    assert!(out[0].popup);
    assert_eq!((out[0].anchor.x, out[0].anchor.y), (150_010, 150_020));
    match &out[0].shape {
        Shape::Profile(p) => {
            assert_eq!(p.heights.len(), 60);
            assert_eq!(p.width, 600);
        }
        Shape::Box(_) => panic!("expected a profile"),
    }
}

#[test]
fn hovering_shows_popups_of_the_element() {
    let mut popups = vec![
        profile_encoding(vec![1], Side::Up, false),
        profile_encoding(vec![1], Side::Up, false),
        profile_encoding(vec![1], Side::Up, false),
    ];
    popups[0].tag.node_id = 7;
    popups[0].visible = false;
    popups[1].tag.node_id = 7;
    popups[1].tag.condition = Some("b".to_string());
    popups[1].visible = false;
    popups[2].tag.node_id = 8;
    popups[2].tag.condition = Some("b".to_string());
    let active = "a".to_string();
    shu::show_hover(&mut popups, 7, true, &active);
    assert!(popups[0].visible);
    assert!(!popups[1].visible);
    assert!(popups[2].visible);
    shu::show_hover(&mut popups, 7, false, &active);
    assert!(!popups[0].visible);
    assert!(!popups[1].visible);
    assert!(!popups[2].visible);
}
