use shu::{
    build_axes, build_hover_axes, build_point_axes, Aesthetics, Anchor, ArrowTag, GeomHist,
    HistPlot, Hover, SideBinding, Samples, Side, Stage, Xaxis,
};

fn arrow(id: &str, node_id: u64) -> ArrowTag {
    ArrowTag {
        id: id.to_string(),
        node_id,
        x: 1000,
        y: 2000,
        dir_x: 1000,
        dir_y: 0,
        length: 250,
        saved_left: None,
        saved_right: None,
    }
}

fn dist_binding(ids: &[&str], dists: Vec<Vec<i64>>, cond: Option<&str>, geom: GeomHist) -> SideBinding {
    SideBinding {
        aes: Aesthetics {
            identifiers: ids.iter().map(|s| s.to_string()).collect(),
            condition: cond.map(|c| c.to_string()),
        },
        samples: Samples::Distribution(dists),
        geom,
        popup: false,
    }
}

#[test]
fn axis_range_is_the_union_of_conditions() {
    let bindings = vec![
        dist_binding(&["r1"], vec![vec![1, 2, 3]], Some("cond1"), GeomHist::left()),
        dist_binding(&["r1"], vec![vec![0, 5]], Some("cond2"), GeomHist::left()),
    ];
    let mut stages = vec![Stage::Pending, Stage::Pending];
    let targets = vec![arrow("r1", 7)];
    let mut axes: Vec<Xaxis> = Vec::new();
    build_axes(&bindings, &mut stages, &targets, &mut axes);
    assert_eq!(axes.len(), 1);
    assert_eq!(axes[0].xlimits, (0, 5));
    assert_eq!(axes[0].conditions, vec!["cond1".to_string(), "cond2".to_string()]);
    assert_eq!(axes[0].side, Side::Left);
    assert_eq!(axes[0].node_id, 7);
    assert_eq!(axes[0].arrow_size, 250);
    assert!(!axes[0].fixed);
    assert_eq!(stages, vec![Stage::Aggregated, Stage::Aggregated]);
}

#[test]
fn aggregating_twice_changes_nothing() {
    let bindings = vec![
        dist_binding(&["r1", "r2"], vec![vec![1, 2], vec![4]], Some("a"), GeomHist::left()),
        dist_binding(&["r1"], vec![vec![-3]], Some("b"), GeomHist::right()),
        dist_binding(&["r9"], vec![vec![1]], None, GeomHist::left()),
    ];
    let mut stages = vec![Stage::Pending; 3];
    let targets = vec![arrow("r1", 1), arrow("r2", 2)];
    let mut axes: Vec<Xaxis> = Vec::new();
    build_axes(&bindings, &mut stages, &targets, &mut axes);
    let first: Vec<(String, Side, (i64, i64), usize)> =
        axes.iter().map(|a| (a.id.clone(), a.side, a.xlimits, a.conditions.len())).collect();
    let stages_first = stages.clone();
    build_axes(&bindings, &mut stages, &targets, &mut axes);
    let second: Vec<(String, Side, (i64, i64), usize)> =
        axes.iter().map(|a| (a.id.clone(), a.side, a.xlimits, a.conditions.len())).collect();
    assert_eq!(first.len(), 3);
    assert_eq!(first, second);
    assert_eq!(stages_first, stages);
    assert_eq!(stages, vec![Stage::Aggregated, Stage::Aggregated, Stage::Pending]);
}

#[test]
fn unsupported_side_is_skipped() {
    let geom = GeomHist { side: Side::Up, plot: HistPlot::Hist };
    let bindings = vec![dist_binding(&["r1"], vec![vec![1]], None, geom)];
    let mut stages = vec![Stage::Pending];
    let mut axes: Vec<Xaxis> = Vec::new();
    build_axes(&bindings, &mut stages, &vec![arrow("r1", 1)], &mut axes);
    assert!(axes.is_empty());
    assert_eq!(stages, vec![Stage::Pending]);
}

#[test]
fn empty_sample_set_does_not_aggregate() {
    let bindings = vec![dist_binding(&["r1"], vec![vec![]], None, GeomHist::left())];
    let mut stages = vec![Stage::Pending];
    let mut axes: Vec<Xaxis> = Vec::new();
    build_axes(&bindings, &mut stages, &vec![arrow("r1", 1)], &mut axes);
    assert!(axes.is_empty());
    assert_eq!(stages, vec![Stage::Pending]);
}

#[test]
fn anchor_is_computed_or_reused() {
    let bindings = vec![
        dist_binding(&["r1"], vec![vec![1]], None, GeomHist::right()),
        dist_binding(&["r1"], vec![vec![1]], None, GeomHist::left()),
    ];
    let mut stages = vec![Stage::Pending; 2];
    let mut target = arrow("r1", 1);
    let saved = Anchor { x: 5, y: 6, facing_x: 0, facing_y: -1000 };
    target.saved_left = Some(saved);
    let mut axes: Vec<Xaxis> = Vec::new();
    build_axes(&bindings, &mut stages, &vec![target], &mut axes);
    assert_eq!(axes.len(), 2);
    assert_eq!(axes[0].anchor, Anchor { x: 1000, y: -28000, facing_x: 0, facing_y: 1000 });
    assert_eq!(axes[1].anchor, saved);
}

#[test]
fn point_axes_keep_a_neutral_range() {
    let b = SideBinding {
        aes: Aesthetics {
            identifiers: vec!["r1".to_string()],
            condition: Some("c".to_string()),
        },
        samples: Samples::Point(vec![42]),
        geom: GeomHist::left().with_plot(HistPlot::BoxPoint),
        popup: false,
    };
    let bindings = vec![b];
    let mut stages = vec![Stage::Pending];
    let mut axes: Vec<Xaxis> = Vec::new();
    build_point_axes(&bindings, &mut stages, &vec![arrow("r1", 3)], &mut axes);
    assert_eq!(axes.len(), 1);
    assert_eq!(axes[0].xlimits, (0, 0));
    assert!(axes[0].fixed);
    assert_eq!(axes[0].conditions, vec!["c".to_string()]);
    assert_eq!(stages, vec![Stage::Aggregated]);
}

#[test]
fn hover_ranges_are_shared_per_node() {
    let mut b1 = dist_binding(&["m1"], vec![vec![2, 8]], Some("a"), GeomHist::left());
    b1.popup = true;
    let mut b2 = dist_binding(&["m2"], vec![vec![-1, 3]], Some("b"), GeomHist::left());
    b2.popup = true;
    let bindings = vec![b1, b2];
    let mut stages = vec![Stage::Pending; 2];
    let mut hovers = vec![
        Hover { id: "m1".to_string(), node_id: 4, x: 0, y: 0, xlimits: None },
        Hover { id: "m2".to_string(), node_id: 4, x: 0, y: 0, xlimits: None },
        Hover { id: "m3".to_string(), node_id: 5, x: 0, y: 0, xlimits: None },
    ];
    build_hover_axes(&bindings, &mut stages, &mut hovers);
    assert_eq!(hovers[0].xlimits, Some((-1, 8)));
    assert_eq!(hovers[1].xlimits, Some((-1, 8)));
    assert_eq!(hovers[2].xlimits, None);
    assert_eq!(stages, vec![Stage::Aggregated, Stage::Aggregated]);
}
