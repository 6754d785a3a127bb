use sam::line_cache::Rgb;
use sam::plot_cache::PlotCache;
use sam::snapshot::{Extractor, Sample, Snapshot, TimedSnapshot};
use sam::transitions::TransitionTracker;

const A: u8 = 1;
const B: u8 = 2;
const C: u8 = 3;

fn snap(value: i32, mode: Option<u8>) -> Snapshot {
    Snapshot { channels: vec![Some(value)], mode }
}

fn source(entries: &[(u64, i32, Option<u8>)]) -> Vec<TimedSnapshot> {
    entries.iter().map(|&(t, v, m)| (t, snap(v, m))).collect()
}

fn cache() -> PlotCache {
    let mut c = PlotCache::new();
    c.add_line("value", Rgb { r: 0, g: 0, b: 0 }, Extractor { channel: 0 });
    c
}

fn samples(c: &PlotCache) -> Vec<Sample> {
    c.line(0).samples().clone()
}

#[test]
fn transitions_record_each_change() {
    let src = source(&[(0, 0, Some(A)), (1, 0, Some(A)), (2, 0, Some(B)), (3, 0, Some(B)), (4, 0, Some(C))]);
    let mut t = TransitionTracker::new();
    t.update(&src, 0);
    assert_eq!(t.transitions().clone(), vec![(0, A), (2, B), (4, C)]);
}

#[test]
fn transitions_skip_unknown_modes() {
    let src = source(&[(0, 0, None), (1, 0, Some(A)), (2, 0, None), (3, 0, Some(A)), (4, 0, Some(B))]);
    let mut t = TransitionTracker::new();
    t.update(&src, 0);
    assert_eq!(t.transitions().clone(), vec![(1, A), (4, B)]);
}

#[test]
fn transitions_carry_mode_across_append() {
    let src = source(&[(0, 0, Some(A)), (1, 0, Some(B)), (2, 0, Some(B)), (3, 0, Some(C))]);
    let mut t = TransitionTracker::new();
    t.update(&src[..2], 0);
    t.update(&src, 2);
    assert_eq!(t.transitions().clone(), vec![(0, A), (1, B), (3, C)]);
    t.clear();
    assert!(t.transitions().is_empty());
}

#[test]
fn grown_source_is_appended() {
    let mut c = cache();
    let first = source(&[(10, 1, Some(A)), (20, 2, Some(A)), (30, 3, Some(B))]);
    c.update_caches_if_necessary(&first);
    assert_eq!(c.fingerprint(), Some((30, 3)));
    // Same timestamps, different values in the old part: an append keeps
    // the cached values, a rebuild would read the new ones.
    let grown = source(&[(10, 100, Some(A)), (20, 200, Some(A)), (30, 300, Some(B)), (40, 4, Some(B)), (50, 5, Some(C))]);
    c.update_caches_if_necessary(&grown);
    assert_eq!(c.fingerprint(), Some((50, 5)));
    let s = samples(&c);
    assert_eq!(s.len(), 5);
    assert_eq!(s.iter().map(|x| x.value).collect::<Vec<_>>(), vec![1, 2, 3, 4, 5]);
    assert_eq!(c.transitions().clone(), vec![(10, A), (30, B), (50, C)]);
}

#[test]
fn unrelated_source_is_rebuilt() {
    let mut c = cache();
    let old = source(&[(10, 1, Some(A)), (20, 2, Some(A)), (30, 3, Some(B)), (40, 4, Some(B)), (50, 5, Some(C))]);
    c.update_caches_if_necessary(&old);
    let fresh = source(&[(7, 70, Some(C)), (8, 80, Some(A))]);
    c.update_caches_if_necessary(&fresh);
    assert_eq!(samples(&c), vec![Sample { time: 7, value: 70 }, Sample { time: 8, value: 80 }]);
    assert_eq!(c.transitions().clone(), vec![(7, C), (8, A)]);
    assert_eq!(c.fingerprint(), Some((8, 2)));
}

#[test]
fn grown_source_with_changed_history_is_rebuilt() {
    let mut c = cache();
    c.update_caches_if_necessary(&source(&[(10, 1, None), (20, 2, None)]));
    // Longer, but the snapshot at the old last position has another time.
    let other = source(&[(10, 5, None), (21, 6, None), (30, 7, None)]);
    c.update_caches_if_necessary(&other);
    assert_eq!(samples(&c).iter().map(|x| x.value).collect::<Vec<_>>(), vec![5, 6, 7]);
}

#[test]
fn idle_diff_changes_nothing() {
    let mut c = cache();
    let src = source(&[(1, 1, Some(A)), (2, 2, Some(B)), (3, 3, Some(B))]);
    c.update_caches_if_necessary(&src);
    let lines = c.plot_lines(1, 2, true, &src);
    let before_samples = samples(&c);
    let before_transitions = c.transitions().clone();
    let before_stats = c.line(0).cached_stats();
    c.update_caches_if_necessary(&src);
    assert_eq!(samples(&c), before_samples);
    assert_eq!(c.transitions().clone(), before_transitions);
    assert_eq!(c.line(0).cached_stats(), before_stats);
    assert!(before_stats.is_some());
    assert_eq!(c.plot_lines(1, 2, true, &src)[0].points, lines[0].points);
}

#[test]
fn empty_source_clears_everything() {
    let mut c = cache();
    let src = source(&[(1, 1, Some(A)), (2, 2, Some(B))]);
    c.update_caches_if_necessary(&src);
    c.update_caches_if_necessary(&[]);
    assert!(samples(&c).is_empty());
    assert!(c.transitions().is_empty());
    assert_eq!(c.fingerprint(), None);
    let lines = c.plot_lines(0, 10, true, &[]);
    assert!(lines[0].points.is_empty());
    assert_eq!(lines[0].stats, None);
}

#[test]
fn incremental_appends_match_rebuild() {
    let full: Vec<TimedSnapshot> = (0..20u64)
        .map(|t| (t, snap(3 * t as i32 - 7, Some((t / 6) as u8))))
        .collect();
    let mut incremental = cache();
    for n in [1usize, 2, 5, 6, 11, 12, 19, 20] {
        incremental.update_caches_if_necessary(&full[..n]);
    }
    let mut rebuilt = cache();
    rebuilt.update_caches_if_necessary(&full);
    assert_eq!(samples(&incremental), samples(&rebuilt));
    assert_eq!(incremental.transitions().clone(), rebuilt.transitions().clone());
    assert_eq!(incremental.transitions().clone(), vec![(0, 0), (6, 1), (12, 2), (18, 3)]);
}

#[test]
fn transitions_only_grow_under_appends() {
    let full: Vec<TimedSnapshot> = (0..12u64).map(|t| (t, snap(0, Some((t % 3 == 0) as u8)))).collect();
    let mut c = cache();
    let mut previous: Vec<(u64, u8)> = Vec::new();
    for n in 1..=full.len() {
        c.update_caches_if_necessary(&full[..n]);
        let now = c.transitions().clone();
        assert!(now.len() >= previous.len());
        assert_eq!(&now[..previous.len()], &previous[..]);
        assert!(now.windows(2).all(|w| w[0].0 <= w[1].0));
        previous = now;
    }
}

#[test]
fn plot_lines_reports_stats_only_when_asked() {
    let mut c = cache();
    let src: Vec<TimedSnapshot> = (0..10u64).map(|t| (t, snap(10 * t as i32, None))).collect();
    let without = c.plot_lines(2, 5, false, &src);
    assert_eq!(without.len(), 1);
    assert_eq!(without[0].name.as_str(), "value");
    assert_eq!(without[0].stats, None);
    assert_eq!(without[0].points.iter().map(|s| s.time).collect::<Vec<_>>(), vec![1, 2, 3, 4, 5]);
    let with = c.plot_lines(2, 5, true, &src);
    let st = with[0].stats.unwrap();
    assert_eq!((st.count, st.sum, st.min, st.max), (5, 150, 10, 50));
}

#[test]
fn mode_lines_follow_the_source() {
    let mut c = cache();
    let src = source(&[(0, 0, Some(A)), (1, 0, Some(A)), (2, 0, Some(B)), (3, 0, Some(B)), (4, 0, Some(C))]);
    assert_eq!(c.mode_lines(&src), vec![(0, A), (2, B), (4, C)]);
}
