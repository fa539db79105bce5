use crypto_usage_analyzer::color::Color;
use crypto_usage_analyzer::data::{AttrValue, AuditEvent};
use crypto_usage_analyzer::layout::{find_segment, layout, FULL_TURN};
use crypto_usage_analyzer::sunburst::{format_tooltip, ClickOutcome, SunburstChart};
use crypto_usage_analyzer::tree::TreeNode;

fn leaf(name: &str, value: u64) -> TreeNode {
    TreeNode {
        name: name.to_string(),
        value,
        children: vec![],
    }
}

fn sample_tree() -> TreeNode {
    TreeNode {
        name: "all".to_string(),
        value: 4,
        children: vec![leaf("a", 1), leaf("b", 3)],
    }
}

fn sample_events() -> Vec<AuditEvent> {
    vec![AuditEvent {
        context: "p1".to_string(),
        origin: "x".to_string(),
        start: 100,
        end: 500,
        events: vec![(
            "name".to_string(),
            AttrValue::Text("tls::handshake_client".to_string()),
        )],
        spans: vec![],
    }]
}

#[test]
fn layout_proportions_are_exact() {
    let root = sample_tree();
    let segs = layout(&root, 0, 600, 0, FULL_TURN);
    assert_eq!(segs.len(), 3);

    // the display root fills ring 0 over the whole circle
    assert_eq!(segs[0].depth, 0);
    assert_eq!(segs[0].start_angle, 0);
    assert_eq!(segs[0].end_angle, FULL_TURN);
    assert_eq!(segs[0].inner_radius, 0);
    assert_eq!(segs[0].outer_radius, 100);
    assert_eq!(segs[0].value, 4);
    assert_eq!(segs[0].labels, vec!["all".to_string()]);
    assert!(segs[0].path.is_empty());

    // children partition the circle 1:3 in stored order, ring 1
    assert_eq!(segs[1].depth, 1);
    assert_eq!(segs[1].start_angle, 0);
    assert_eq!(segs[1].end_angle, FULL_TURN / 4);
    assert_eq!(segs[1].inner_radius, 100);
    assert_eq!(segs[1].outer_radius, 200);
    assert_eq!(segs[1].path, vec![0]);
    assert_eq!(segs[1].labels, vec!["all".to_string(), "a".to_string()]);

    assert_eq!(segs[2].depth, 1);
    assert_eq!(segs[2].start_angle, FULL_TURN / 4);
    assert_eq!(segs[2].end_angle, FULL_TURN);
    assert_eq!(segs[2].path, vec![1]);

    // angle conservation: the children's widths sum to the parent's width
    let child_width_sum =
        (segs[1].end_angle - segs[1].start_angle) + (segs[2].end_angle - segs[2].start_angle);
    assert_eq!(child_width_sum, segs[0].end_angle - segs[0].start_angle);
}

#[test]
fn thirds_sum_without_drift() {
    let root = TreeNode {
        name: "all".to_string(),
        value: 3,
        children: vec![leaf("a", 1), leaf("b", 1), leaf("c", 1)],
    };
    let segs = layout(&root, 0, 600, 0, FULL_TURN);
    assert_eq!(segs.len(), 4);
    let sum: u64 = (1..4).map(|i| segs[i].end_angle - segs[i].start_angle).sum();
    assert_eq!(sum, FULL_TURN);
    // the cursor accumulates: each child starts where the previous ended
    assert_eq!(segs[1].end_angle, segs[2].start_angle);
    assert_eq!(segs[2].end_angle, segs[3].start_angle);
}

#[test]
fn zero_weight_nodes_are_invisible() {
    let root = TreeNode {
        name: "all".to_string(),
        value: 2,
        children: vec![leaf("a", 1), leaf("ghostly", 0), leaf("b", 1)],
    };
    let segs = layout(&root, 0, 600, 0, FULL_TURN);
    assert_eq!(segs.len(), 3);
    for seg in &segs {
        assert!(seg.value > 0);
        assert!(!seg.labels.contains(&"ghostly".to_string()));
    }
}

#[test]
fn hit_test_finds_midpoints_and_prefers_topmost() {
    let root = sample_tree();
    let segs = layout(&root, 0, 600, 0, FULL_TURN);

    for (i, seg) in segs.iter().enumerate() {
        let mid_r = (seg.inner_radius + seg.outer_radius) / 2;
        let mid_a = (seg.start_angle + seg.end_angle) / 2;
        let hit = find_segment(&segs, mid_r, mid_a).expect("midpoint must hit");
        assert!(segs[hit].contains_point(mid_r, mid_a));
        assert!(hit >= i || !segs[i].contains_point(mid_r, mid_a));
    }

    // a point on the shared radial boundary belongs to both rings; the
    // later-drawn (deeper) segment wins
    let hit = find_segment(&segs, 100, 10).expect("boundary point must hit");
    assert_eq!(hit, 1);

    // far outside everything
    assert_eq!(find_segment(&segs, 599, 10), None);
}

#[test]
fn zoom_round_trip_restores_layout() {
    let mut chart = SunburstChart::new();
    chart.set_data(sample_tree(), sample_events());
    chart.on_resize(600);

    let before: Vec<(u64, u64, u64, u64, usize, u64)> = chart
        .segments
        .iter()
        .map(|s| {
            (
                s.start_angle,
                s.end_angle,
                s.inner_radius,
                s.outer_radius,
                s.depth,
                s.value,
            )
        })
        .collect();
    assert_eq!(before.len(), 3);

    // click the midpoint of the "b" segment: zoom in
    let outcome = chart.on_click(150, FULL_TURN / 2);
    assert_eq!(outcome, ClickOutcome::ZoomedIn);
    assert_eq!(chart.zoom_path, vec![1]);
    assert_eq!(chart.segments.len(), 1);
    assert_eq!(chart.segments[0].labels, vec!["b".to_string()]);
    assert_eq!(chart.segments[0].value, 3);

    // click the centre: zoom out, the global layout returns unchanged
    let outcome = chart.on_click(50, 123);
    assert_eq!(outcome, ClickOutcome::ZoomedOut);
    assert!(chart.zoom_path.is_empty());
    let after: Vec<(u64, u64, u64, u64, usize, u64)> = chart
        .segments
        .iter()
        .map(|s| {
            (
                s.start_angle,
                s.end_angle,
                s.inner_radius,
                s.outer_radius,
                s.depth,
                s.value,
            )
        })
        .collect();
    assert_eq!(before, after);
}

#[test]
fn click_outside_changes_nothing() {
    let mut chart = SunburstChart::new();
    chart.set_data(sample_tree(), sample_events());
    chart.on_resize(600);
    let outcome = chart.on_click(599, 0);
    assert_eq!(outcome, ClickOutcome::NoChange);
    assert!(chart.zoom_path.is_empty());
    assert_eq!(chart.segments.len(), 3);
}

#[test]
fn hover_updates_on_pointer_move() {
    let mut chart = SunburstChart::new();
    chart.set_data(sample_tree(), sample_events());
    chart.on_resize(600);

    let redraw = chart.on_pointer_move(50, 10);
    assert!(redraw);
    assert_eq!(chart.hover_segment, Some(0));

    // same spot again: no redraw needed
    let redraw = chart.on_pointer_move(50, 11);
    assert!(!redraw);

    // leave the chart
    let redraw = chart.on_pointer_move(599, 0);
    assert!(redraw);
    assert_eq!(chart.hover_segment, None);
}

#[test]
fn selection_highlights_exact_label_path() {
    let mut chart = SunburstChart::new();
    chart.set_data(sample_tree(), sample_events());
    chart.on_resize(600);
    chart.set_selected_path(vec!["all".to_string(), "b".to_string()]);

    let instrs = chart.draw_instructions();
    assert_eq!(instrs.len(), 3);
    assert!(!instrs[0].selected);
    assert!(!instrs[1].selected);
    assert!(instrs[2].selected);

    // zooming clears the selection
    chart.on_click(150, FULL_TURN / 2);
    assert!(chart.selected_path.is_empty());
}

#[test]
fn color_is_deterministic() {
    let c1 = SunburstChart::get_color("tls::sign", 2);
    let c2 = SunburstChart::get_color("tls::sign", 2);
    assert_eq!(c1, c2);
    assert_eq!(
        c1,
        Color {
            red: 336000,
            green: 840000,
            blue: 806400,
        }
    );
    let c3 = SunburstChart::get_color("tls::verify", 2);
    assert_ne!(c1, c3);
    let c4 = SunburstChart::get_color("tls::sign", 3);
    assert_ne!(c1, c4);
}

#[test]
fn tooltip_lists_top_children() {
    let node = TreeNode {
        name: "all".to_string(),
        value: 3,
        children: vec![leaf("a", 1), leaf("b", 2)],
    };
    let text = format_tooltip(&node);
    assert_eq!(
        text,
        "all\nCount: 3\nChildren: 2\n\nTop operations:\n  \u{2022} b (67%)\n  \u{2022} a (33%)\n"
    );

    let leaf_text = format_tooltip(&leaf("solo", 7));
    assert_eq!(leaf_text, "solo\nCount: 7\n");
}

#[test]
fn period_labels_format_range() {
    let chart = {
        let mut c = SunburstChart::new();
        c.set_data(sample_tree(), sample_events());
        c
    };
    let (start, end, duration) = chart.update_period_labels(0).expect("range must exist");
    assert_eq!(start, "Start: 1970-01-01T00:00:00.000000100Z");
    assert_eq!(end, "End: 1970-01-01T00:00:00.000000500Z");
    assert_eq!(duration, "Duration: 400ns");

    let (start, _, _) = chart.update_period_labels(1000).expect("range must exist");
    assert_eq!(start, "Start: 1970-01-01T00:16:40.000000100Z");

    let empty = SunburstChart::new();
    assert_eq!(empty.update_period_labels(0), None);
}

#[test]
fn tree_rows_project_the_display_root() {
    let mut chart = SunburstChart::new();
    chart.set_data(sample_tree(), sample_events());
    chart.on_resize(600);

    let rows = chart.tree_rows();
    assert_eq!(rows.len(), 2);
    assert_eq!(rows[0].name, "a");
    assert_eq!(rows[0].count, "1");
    assert_eq!(rows[0].value, 1);
    assert_eq!(rows[1].name, "b");
    assert_eq!(rows[1].count, "3");

    chart.on_click(150, FULL_TURN / 2);
    let rows = chart.tree_rows();
    assert!(rows.is_empty());
}

#[test]
fn tooltip_for_segment_resolves_node() {
    let mut chart = SunburstChart::new();
    chart.set_data(sample_tree(), sample_events());
    chart.on_resize(600);

    let text = chart.tooltip(2).expect("segment 2 exists");
    assert_eq!(text, "b\nCount: 3\n");
    assert_eq!(chart.tooltip(99), None);
}
