use shu::{
    color_legend_arrow, color_legend_box, color_legend_circle, color_legend_histograms,
    fill_conditions, filter_histograms, is_all, paint_legend, plot_arrow_color, plot_arrow_size,
    plot_arrow_size_dist, plot_metabolite_color, plot_metabolite_size, to_rgba8, Aesthetics,
    Anchor, Channel, ChannelBinding, ColorTable, Encoding, GeomHist, GeomKind, HistPlot, HistTag,
    Hsva, Profile, Ratio, SideBinding, Samples, Shape, Side, UiState, Xaxis,
};

fn tagged(cond: Option<&str>) -> Encoding {
    Encoding {
        shape: Shape::Profile(Profile { heights: vec![1], width: 10, curve: false }),
        tag: HistTag { side: Side::Left, condition: cond.map(|c| c.to_string()), node_id: 1 },
        anchor: Anchor { x: 0, y: 0, facing_x: 0, facing_y: 1000 },
        color: Hsva { h: 0, s: 0, v: 0, a: 1000 },
        fixed: false,
        scale_y: Ratio { num: 1, den: 1 },
        label_scale_y: Ratio { num: 1, den: 1 },
        visible: true,
        popup: false,
    }
}

fn channel(ids: &[&str], values: Vec<i64>, cond: Option<&str>, ch: Channel, geom: GeomKind) -> ChannelBinding {
    ChannelBinding {
        aes: Aesthetics {
            identifiers: ids.iter().map(|s| s.to_string()).collect(),
            condition: cond.map(|c| c.to_string()),
        },
        samples: Samples::Point(values),
        channel: ch,
        geom,
    }
}

fn names(v: &[&str]) -> Vec<String> {
    v.iter().map(|s| s.to_string()).collect()
}

#[test]
fn encodings_follow_the_active_condition() {
    let mut encodings = vec![tagged(Some("cond2")), tagged(Some("cond1")), tagged(None), tagged(Some("cond2"))];
    encodings[2].visible = false;
    encodings[3].popup = true;
    encodings[3].visible = false;
    filter_histograms(&mut encodings, &"cond1".to_string());
    assert!(!encodings[0].visible);
    assert!(encodings[1].visible);
    assert!(!encodings[2].visible);
    assert!(!encodings[3].visible);
    filter_histograms(&mut encodings, &"ALL".to_string());
    assert!(encodings[0].visible);
    assert!(encodings[1].visible);
    assert!(!encodings[2].visible);
    assert!(!encodings[3].visible);
}

#[test]
fn sentinel_condition() {
    assert!(is_all(&"ALL".to_string()));
    assert!(!is_all(&"all".to_string()));
    assert!(!is_all(&String::new()));
}

#[test]
fn color_legend_shows_the_last_matching_binding() {
    let bindings = vec![
        channel(&["r1"], vec![1, 5], Some("a"), Channel::Color, GeomKind::Arrow),
        channel(&["r1"], vec![-2, 3], Some("b"), Channel::Color, GeomKind::Arrow),
        channel(&["r1"], vec![9], None, Channel::Size, GeomKind::Arrow),
        channel(&["m1"], vec![4, 6], None, Channel::Color, GeomKind::Metabolite),
    ];
    let pixels = vec![1, 1, 1, 255, 1, 1, 1, 255];
    let mut ui = UiState::default();
    ui.condition = "a".to_string();
    let a = color_legend_arrow(&bindings, &ui, &pixels, 2);
    assert!(a.visible);
    assert_eq!(a.range, Some((1, 5)));
    let mut expected = to_rgba8(ui.min_reaction_color).to_vec();
    expected.extend_from_slice(&to_rgba8(ui.max_reaction_color));
    assert_eq!(a.image, Some(expected));
    ui.condition = "ALL".to_string();
    let all = color_legend_arrow(&bindings, &ui, &pixels, 2);
    assert!(all.visible);
    assert_eq!(all.range, Some((-2, 3)));
    ui.condition = "c".to_string();
    let none = color_legend_arrow(&bindings, &ui, &pixels, 2);
    assert!(!none.visible);
    assert_eq!(none.range, None);
    assert_eq!(none.image, None);
    let circle = color_legend_circle(&bindings, &ui, &pixels, 2);
    assert!(circle.visible);
    assert_eq!(circle.range, Some((4, 6)));
    let mut expected = to_rgba8(ui.min_metabolite_color).to_vec();
    expected.extend_from_slice(&to_rgba8(ui.max_metabolite_color));
    assert_eq!(circle.image, Some(expected));
}

#[test]
fn box_legend_is_per_side() {
    let geom = GeomHist::right().with_plot(HistPlot::BoxPoint);
    let bindings = vec![SideBinding {
        aes: Aesthetics { identifiers: names(&["r1"]), condition: Some("a".to_string()) },
        samples: Samples::Point(vec![3, 8]),
        geom,
        popup: false,
    }];
    let pixels = vec![0, 0, 0, 0, 5, 5, 5, 9];
    let mut ui = UiState::default();
    ui.condition = "a".to_string();
    let right = color_legend_box(&bindings, Side::Right, &ui, &pixels, 2);
    assert!(right.visible);
    assert_eq!(right.range, Some((3, 8)));
    let mut expected = vec![0, 0, 0, 0];
    expected.extend_from_slice(&to_rgba8(ui.max_reaction_color));
    assert_eq!(right.image, Some(expected));
    assert!(!color_legend_box(&bindings, Side::Left, &ui, &pixels, 2).visible);
    ui.condition = "b".to_string();
    assert!(!color_legend_box(&bindings, Side::Right, &ui, &pixels, 2).visible);
}

#[test]
fn histogram_legend_reads_the_axis() {
    let bindings = vec![SideBinding {
        aes: Aesthetics { identifiers: names(&["r1"]), condition: Some("a".to_string()) },
        samples: Samples::Distribution(vec![vec![1, 2]]),
        geom: GeomHist::left(),
        popup: false,
    }];
    let mut stages = vec![shu::Stage::Pending];
    let targets = vec![shu::ArrowTag {
        id: "r1".to_string(),
        node_id: 1,
        x: 0,
        y: 0,
        dir_x: 1000,
        dir_y: 0,
        length: 100,
        saved_left: None,
        saved_right: None,
    }];
    let mut axes: Vec<Xaxis> = Vec::new();
    shu::build_axes(&bindings, &mut stages, &targets, &mut axes);
    let mut ui = UiState::default();
    let special = Hsva { h: 100, s: 100, v: 100, a: 100 };
    ui.color_left.entries.push(("a".to_string(), special));
    ui.condition = "a".to_string();
    let left = color_legend_histograms(&axes, &bindings, Side::Left, &ui);
    assert!(left.visible);
    assert_eq!(left.range, Some((1, 2)));
    assert_eq!(left.color, special);
    let right = color_legend_histograms(&axes, &bindings, Side::Right, &ui);
    assert!(!right.visible);
    assert_eq!(right.range, None);
    assert_eq!(right.color, ui.color_right.default);
}

#[test]
fn color_table_falls_back_to_default() {
    let d = Hsva { h: 1, s: 2, v: 3, a: 4 };
    let mut t = ColorTable::new(d);
    let c = Hsva { h: 5, s: 6, v: 7, a: 8 };
    t.entries.push(("x".to_string(), c));
    assert_eq!(t.lookup(&"x".to_string()), c);
    assert_eq!(t.lookup(&"y".to_string()), d);
    assert_eq!(t.lookup_condition(&None), d);
}

#[test]
fn conditions_are_deduplicated_with_sentinel() {
    let mut condition = String::new();
    let mut conditions = vec![String::new()];
    let found = vec![Some("b".to_string()), None, Some("a".to_string()), Some("b".to_string())];
    fill_conditions(&mut condition, &mut conditions, &found);
    assert_eq!(conditions, names(&["b", "a", "ALL"]));
    assert_eq!(condition, "b");
    // nothing new: nothing changes
    condition = "a".to_string();
    fill_conditions(&mut condition, &mut conditions, &found);
    assert_eq!(conditions, names(&["b", "a", "ALL"]));
    assert_eq!(condition, "a");
}

#[test]
fn conditions_keep_an_existing_sentinel() {
    let mut condition = "x".to_string();
    let mut conditions = vec![String::new()];
    let found = vec![Some("ALL".to_string()), Some("c".to_string())];
    fill_conditions(&mut condition, &mut conditions, &found);
    assert_eq!(conditions, names(&["ALL", "c"]));
    assert_eq!(condition, "x");
}

#[test]
fn legend_gradient_keeps_transparent_pixels() {
    let c1 = Hsva { h: 0, s: 1000, v: 1000, a: 1000 };
    let c2 = Hsva { h: 2400, s: 1000, v: 1000, a: 1000 };
    // two rows of two pixels; the second pixel of the first row is transparent
    let pixels = vec![1, 1, 1, 255, 9, 9, 9, 0, 1, 1, 1, 1, 1, 1, 1, 1];
    let out = paint_legend(&pixels, 2, c1, c2);
    assert_eq!(out.len(), 16);
    assert_eq!(&out[0..4], &to_rgba8(c1));
    assert_eq!(&out[4..8], &[0, 0, 0, 0]);
    assert_eq!(&out[8..12], &to_rgba8(c1));
    assert_eq!(&out[12..16], &to_rgba8(c2));
    assert_eq!(&out[12..16], &[0, 0, 255, 255]);
}

#[test]
fn arrow_sizes_scale_between_bounds() {
    let ui = UiState::default();
    let b = channel(&["r1", "r2", "r3"], vec![0, 10, 5], None, Channel::Size, GeomKind::Arrow);
    let w = plot_arrow_size(&b, &names(&["r2", "r1", "zz", "r3"]), &ui).unwrap();
    assert_eq!(w, vec![60, 20, 10, 40]);
    let other = channel(&["r1"], vec![1], Some("b"), Channel::Size, GeomKind::Arrow);
    let mut ui_a = UiState::default();
    ui_a.condition = "a".to_string();
    assert!(plot_arrow_size(&other, &names(&["r1"]), &ui_a).is_none());
    assert!(plot_arrow_color(&b, &names(&["r1"]), &ui).is_none());
}

#[test]
fn arrow_sizes_from_distribution_means() {
    let ui = UiState::default();
    let b = ChannelBinding {
        aes: Aesthetics { identifiers: names(&["r1", "r2", "r3"]), condition: None },
        samples: Samples::Distribution(vec![vec![0, 2], vec![10], vec![]]),
        channel: Channel::Size,
        geom: GeomKind::Arrow,
    };
    let w = plot_arrow_size_dist(&b, &names(&["r1", "r2", "r3"]), &ui).unwrap();
    assert_eq!(w, vec![24, 60, 10]);
}

#[test]
fn element_colors_and_radii() {
    let ui = UiState::default();
    let c = channel(&["r1", "r2"], vec![2, 4], None, Channel::Color, GeomKind::Arrow);
    let colors = plot_arrow_color(&c, &names(&["r2", "r1", "zz"]), &ui).unwrap();
    assert_eq!(colors[0], ui.max_reaction_color);
    assert_eq!(colors[1], ui.min_reaction_color);
    assert_eq!(colors[2], Hsva { h: 0, s: 0, v: 850, a: 1000 });
    let m = channel(&["m1", "m2"], vec![1, 3], Some("x"), Channel::Color, GeomKind::Metabolite);
    let mc = plot_metabolite_color(&m, &names(&["m1"]), &ui).unwrap();
    assert_eq!(mc[0], ui.min_metabolite_color);
    let s = channel(&["m1", "m2"], vec![1, 3], None, Channel::Size, GeomKind::Metabolite);
    let radii = plot_metabolite_size(&s, &names(&["m2", "m9"]), &ui).unwrap();
    assert_eq!(radii, vec![60, 20]);
}

#[test]
fn default_settings() {
    let ui = UiState::default();
    assert_eq!((ui.min_reaction, ui.max_reaction), (20, 60));
    assert_eq!((ui.max_left, ui.max_right, ui.max_top), (100, 100, 100));
    assert_eq!(ui.condition, "");
    assert_eq!(ui.conditions, vec![String::new()]);
    assert_eq!(ui.min_reaction_color, Hsva { h: 2162, s: 293, v: 910, a: 1000 });
}

#[test]
fn or_color_inserts_the_default_once() {
    let d = Hsva { h: 1, s: 2, v: 3, a: 4 };
    let mut t = ColorTable::new(d);
    let i = shu::or_color(&"cond1".to_string(), &mut t);
    assert_eq!(i, 0);
    assert_eq!(t.entries.len(), 1);
    assert_eq!(t.entries[0], ("cond1".to_string(), d));
    t.entries[i].1 = Hsva { h: 9, s: 9, v: 9, a: 9 };
    let j = shu::or_color(&"cond1".to_string(), &mut t);
    assert_eq!(j, 0);
    assert_eq!(t.entries.len(), 1);
    assert_eq!(t.lookup(&"cond1".to_string()), Hsva { h: 9, s: 9, v: 9, a: 9 });
}
