use sam::line_cache::{PlotCacheLine, Rgb, Stats};
use sam::snapshot::{Extractor, Sample, Snapshot, TimedSnapshot};

fn snap(value: Option<i32>) -> Snapshot {
    Snapshot { channels: vec![value], mode: None }
}

fn ramp() -> Vec<TimedSnapshot> {
    (0..10u64).map(|t| (t, snap(Some(10 * t as i32)))).collect()
}

fn line() -> PlotCacheLine {
    PlotCacheLine::new("ramp", Rgb { r: 1, g: 2, b: 3 }, Extractor { channel: 0 })
}

fn times(v: &[Sample]) -> Vec<u64> {
    v.iter().map(|s| s.time).collect()
}

#[test]
fn window_pads_one_sample_each_side() {
    let mut l = line();
    l.update_cache(&ramp(), 0);
    let w = l.data_for_bounds(2, 5);
    assert_eq!(times(&w), vec![1, 2, 3, 4, 5]);
    assert_eq!(w.iter().map(|s| s.value).collect::<Vec<_>>(), vec![10, 20, 30, 40, 50]);
    assert!(w.first().unwrap().time <= 2);
    assert!(w.last().unwrap().time >= 5);
}

#[test]
fn window_repeated_bounds_reuses_view() {
    let mut l = line();
    l.update_cache(&ramp(), 0);
    let first = l.data_for_bounds(2, 5);
    let st = l.stats();
    assert!(st.is_some());
    let second = l.data_for_bounds(2, 5);
    assert_eq!(first, second);
    // The view was not recomputed: its statistics are still cached.
    assert_eq!(l.cached_stats(), st);
}

#[test]
fn stats_exact_values() {
    let mut l = line();
    l.update_cache(&ramp(), 0);
    l.data_for_bounds(2, 5);
    let st = l.stats().unwrap();
    assert_eq!(st, Stats { count: 5, sum: 150, sum_squares: 5500, min: 10, max: 50 });
    // Asking again gives the same, from the cache.
    assert_eq!(l.stats(), Some(st));
}

#[test]
fn stats_follow_new_window() {
    let mut l = line();
    l.update_cache(&ramp(), 0);
    l.data_for_bounds(2, 5);
    l.stats();
    let w = l.data_for_bounds(7, 8);
    assert_eq!(times(&w), vec![6, 7, 8]);
    assert_eq!(l.cached_stats(), None);
    let st = l.stats().unwrap();
    assert_eq!(st, Stats { count: 3, sum: 210, sum_squares: 3600 + 4900 + 6400, min: 60, max: 80 });
}

#[test]
fn empty_line_gives_empty_view_and_no_stats() {
    let mut l = line();
    assert!(l.data_for_bounds(0, 100).is_empty());
    assert_eq!(l.stats(), None);
}

#[test]
fn cleared_line_gives_empty_view_and_no_stats() {
    let mut l = line();
    l.update_cache(&ramp(), 0);
    l.data_for_bounds(2, 5);
    l.stats();
    l.clear_cache();
    assert!(l.samples().is_empty());
    assert!(l.data_for_bounds(2, 5).is_empty());
    assert_eq!(l.stats(), None);
    assert_eq!(l.extractor(), Extractor { channel: 0 });
}

#[test]
fn window_past_the_end_keeps_last_sample() {
    let mut l = line();
    l.update_cache(&ramp(), 0);
    assert_eq!(times(&l.data_for_bounds(20, 30)), vec![9]);
}

#[test]
fn window_before_the_start_keeps_first_sample() {
    let mut l = line();
    l.update_cache(&ramp(), 0);
    let src: Vec<TimedSnapshot> = (100..105u64).map(|t| (t, snap(Some(1)))).collect();
    l.update_cache(&src, 0);
    assert_eq!(times(&l.data_for_bounds(0, 50)), vec![100]);
}

#[test]
fn window_covering_everything_returns_everything() {
    let mut l = line();
    l.update_cache(&ramp(), 0);
    assert_eq!(times(&l.data_for_bounds(0, 9)), (0..10).collect::<Vec<u64>>());
    assert_eq!(times(&l.data_for_bounds(0, 1000)), (0..10).collect::<Vec<u64>>());
}

#[test]
fn window_padding_reaches_both_edges() {
    let mut l = line();
    l.update_cache(&ramp(), 0);
    let w = l.data_for_bounds(3, 6);
    assert!(w.iter().any(|s| s.time <= 3));
    assert!(w.iter().any(|s| s.time >= 6));
    let w = l.data_for_bounds(4, 8);
    assert!(w.iter().any(|s| s.time <= 4));
    assert!(w.iter().any(|s| s.time >= 8));
}

#[test]
fn window_with_equal_times() {
    let mut l = line();
    let src: Vec<TimedSnapshot> = vec![(1, snap(Some(1))), (2, snap(Some(2))), (2, snap(Some(3))), (3, snap(Some(4)))];
    l.update_cache(&src, 0);
    let w = l.data_for_bounds(2, 2);
    assert_eq!(w.iter().map(|s| s.value).collect::<Vec<_>>(), vec![1, 2]);
}

#[test]
fn missing_values_are_skipped() {
    let mut l = line();
    let src: Vec<TimedSnapshot> = vec![
        (0, snap(Some(5))),
        (1, snap(None)),
        (2, Snapshot { channels: vec![], mode: None }),
        (3, snap(Some(7))),
    ];
    l.update_cache(&src, 0);
    assert_eq!(l.samples().clone(), vec![Sample { time: 0, value: 5 }, Sample { time: 3, value: 7 }]);
}

#[test]
fn update_appends_only_the_unseen_suffix() {
    let mut l = line();
    let src = ramp();
    l.update_cache(&src[..4], 0);
    l.update_cache(&src, 4);
    assert_eq!(times(l.samples()), (0..10).collect::<Vec<u64>>());
}

#[test]
fn line_keeps_name_and_color() {
    let l = line();
    assert_eq!(l.name().as_str(), "ramp");
    assert_eq!(l.color(), Rgb { r: 1, g: 2, b: 3 });
}

#[test]
fn stats_extreme_values() {
    let mut l = line();
    let src: Vec<TimedSnapshot> = vec![(0, snap(Some(i32::MIN))), (1, snap(Some(i32::MAX)))];
    l.update_cache(&src, 0);
    l.data_for_bounds(0, 1);
    let st = l.stats().unwrap();
    assert_eq!(st.sum, -1);
    assert_eq!(st.sum_squares, (i32::MIN as i128) * (i32::MIN as i128) + (i32::MAX as i128) * (i32::MAX as i128));
    assert_eq!((st.min, st.max, st.count), (i32::MIN, i32::MAX, 2));
}
