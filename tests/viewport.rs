use sam::chart::{FrameSetup, PlotState};
use sam::line_cache::Rgb;
use sam::snapshot::{Extractor, Snapshot, TimedSnapshot};
use sam::viewport::{Interaction, SharedPlotState, DEFAULT_VIEW_WIDTH};

fn idle() -> Interaction {
    Interaction {
        hovered: false,
        zoom_milli: None,
        scrolled_x: false,
        primary_dragged: false,
        primary_double_clicked: false,
        drag_released: false,
        secondary_dragged: false,
    }
}

fn chart() -> PlotState {
    PlotState::new("Power", (Some(0), Some(9000))).line("Battery", Rgb { r: 1, g: 1, b: 1 }, Extractor { channel: 0 })
}

#[test]
fn new_state_is_attached_and_idle() {
    let s = SharedPlotState::new(5);
    assert!(s.attached_to_edge);
    assert!(!s.box_dragging);
    assert!(!s.reset_on_next_draw);
    assert!(!s.show_stats);
    assert_eq!(s.view_width, DEFAULT_VIEW_WIDTH);
    assert_eq!((s.start, s.end), (5, 5));
}

#[test]
fn drag_detaches_then_double_click_reattaches_with_one_reset() {
    let mut shared = SharedPlotState::new(0);
    let mut plot = chart();
    plot.process_interaction(&mut shared, Interaction { primary_dragged: true, hovered: true, ..idle() });
    assert!(!shared.attached_to_edge);
    plot.process_interaction(&mut shared, Interaction { primary_double_clicked: true, hovered: true, ..idle() });
    assert!(shared.attached_to_edge);
    assert!(!shared.reset_on_next_draw);
    let setup = plot.begin_frame(&mut shared);
    assert!(setup.reset);
    assert!(shared.attached_to_edge);
    // The reset was one-shot.
    assert!(!plot.begin_frame(&mut shared).reset);
}

#[test]
fn zoom_while_attached_reanchors_on_next_draw() {
    let mut shared = SharedPlotState::new(0);
    shared.set_end(Some(30_000_000));
    let mut plot = chart();
    plot.process_interaction(&mut shared, Interaction { hovered: true, zoom_milli: Some(2000), ..idle() });
    assert_eq!(shared.view_width, DEFAULT_VIEW_WIDTH / 2);
    assert!(shared.reset_on_next_draw);
    let setup = plot.begin_frame(&mut shared);
    assert_eq!(
        setup,
        FrameSetup { xmin: 25_000_000, xmax: 30_000_000, reset: true, ymin: Some(0), ymax: Some(9000) }
    );
    assert!(!shared.reset_on_next_draw);
    plot.process_interaction(&mut shared, idle());
    assert!(shared.attached_to_edge);
    assert!(!plot.begin_frame(&mut shared).reset);
}

#[test]
fn zoom_while_detached_does_not_reanchor() {
    let mut s = SharedPlotState::new(0);
    s.attached_to_edge = false;
    s.process_zoom(500);
    assert_eq!(s.view_width, 2 * DEFAULT_VIEW_WIDTH);
    assert!(!s.reset_on_next_draw);
    assert!(!s.attached_to_edge);
}

#[test]
fn zoom_width_saturates() {
    let mut s = SharedPlotState::new(0);
    s.process_zoom(0);
    assert_eq!(s.view_width, u64::MAX);
    s.process_zoom(500);
    assert_eq!(s.view_width, u64::MAX);
    let mut t = SharedPlotState::new(0);
    t.process_zoom(3000);
    assert_eq!(t.view_width, 3_333_333);
}

#[test]
fn scroll_detaches_only_without_zoom() {
    let mut s = SharedPlotState::new(0);
    s.process_interaction(Interaction { hovered: true, scrolled_x: true, zoom_milli: Some(1500), ..idle() });
    assert!(s.attached_to_edge);
    s.process_interaction(Interaction { hovered: true, scrolled_x: true, ..idle() });
    assert!(!s.attached_to_edge);
}

#[test]
fn scroll_without_hover_is_ignored() {
    let mut s = SharedPlotState::new(0);
    s.process_interaction(Interaction { scrolled_x: true, ..idle() });
    assert!(s.attached_to_edge);
}

#[test]
fn box_zoom_detaches_on_release() {
    let mut s = SharedPlotState::new(0);
    s.process_interaction(Interaction { secondary_dragged: true, ..idle() });
    assert!(s.box_dragging);
    assert!(s.attached_to_edge);
    s.process_interaction(Interaction { drag_released: true, ..idle() });
    assert!(!s.box_dragging);
    assert!(!s.attached_to_edge);
}

#[test]
fn release_without_box_keeps_attachment() {
    let mut s = SharedPlotState::new(0);
    s.process_drag_released(true);
    assert!(s.attached_to_edge);
    s.process_box_dragging(false);
    assert!(!s.box_dragging);
}

#[test]
fn set_end_falls_back_to_start() {
    let mut s = SharedPlotState::new(42);
    s.set_end(Some(100));
    assert_eq!(s.end, 100);
    s.set_end(None);
    assert_eq!(s.end, 42);
}

#[test]
fn interval_clamps_at_zero() {
    let mut s = SharedPlotState::new(0);
    s.set_end(Some(4_000_000));
    assert_eq!(s.interval(), (0, 4_000_000));
    s.set_end(Some(12_000_000));
    assert_eq!(s.interval(), (2_000_000, 12_000_000));
}

#[test]
fn chart_draws_lines_and_markers() {
    let mut shared = SharedPlotState::new(0);
    shared.show_stats = true;
    let mut plot = chart();
    assert_eq!(plot.title().as_str(), "Power");
    assert_eq!(plot.ylimits(), (Some(0), Some(9000)));
    let src: Vec<TimedSnapshot> = (0..5u64)
        .map(|t| (t, Snapshot { channels: vec![Some(t as i32)], mode: Some((t / 2) as u8) }))
        .collect();
    shared.set_end(Some(4));
    let setup = plot.begin_frame(&mut shared);
    assert_eq!((setup.xmin, setup.xmax, setup.reset), (0, 4, false));
    let lines = plot.plot_lines(setup.xmin, setup.xmax, shared.show_stats, &src);
    assert_eq!(lines.len(), 1);
    assert_eq!(lines[0].points.len(), 5);
    assert_eq!(lines[0].stats.unwrap().sum, 10);
    assert_eq!(plot.mode_lines(&src), vec![(0, 0), (2, 1), (4, 2)]);
    assert_eq!(plot.cache().num_lines(), 1);
}

#[test]
fn requested_reset_is_honoured_once() {
    let mut shared = SharedPlotState::new(0);
    shared.attached_to_edge = false;
    let mut plot = chart();
    plot.request_reset();
    assert!(plot.cache().reset_requested());
    assert!(plot.begin_frame(&mut shared).reset);
    assert!(shared.attached_to_edge);
    assert!(!plot.cache().reset_requested());
    assert!(!plot.begin_frame(&mut shared).reset);
}
