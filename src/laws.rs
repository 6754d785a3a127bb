//! Properties of the caches and of the interaction state machine that hold
//! across calls, proved over the models the operations are specified with.

use vstd::prelude::*;

use crate::chart::after_reset_step;
use crate::line_cache::{
    lemma_num_before_le, lemma_num_before_monotone, lemma_num_before_sorted, sorted, stats_of,
    window_of, num_before, LineModel,
};
use crate::plot_cache::{fingerprint_of, keep_count, CacheModel};
use crate::snapshot::{extract, samples_of, time_ordered, Extractor, Sample, TimedSnapshot};
use crate::transitions::{
    last_mode, lemma_scan_concat, lemma_scan_known, lemma_scan_within, transitions_of, transitions_sorted,
};
use crate::viewport::{after_interaction, Interaction, SharedPlotState};

verus! {

/// The caches hold exactly what a rebuild from `src` would give: every
/// line's samples, the transitions, and the fingerprint.
pub open spec fn coherent(m: CacheModel, src: Seq<TimedSnapshot>) -> bool {
    &&& m.fingerprint == if src.len() > 0 { Some(fingerprint_of(src)) } else { None }
    &&& forall|i: int| 0 <= i < m.lines.len() ==> (#[trigger] m.lines[i]).samples == samples_of(
        m.lines[i].extractor,
        src,
    )
    &&& m.transitions == transitions_of(None, src)
}

/// Each source in `srcs` continues the previous one.
pub open spec fn append_only(srcs: Seq<Seq<TimedSnapshot>>) -> bool {
    forall|i: int| 0 < i < srcs.len() ==> (#[trigger] srcs[i - 1]).is_prefix_of(srcs[i])
}

/// The caches after one diff step against each source of `srcs` in turn.
pub open spec fn synced_all(m: CacheModel, srcs: Seq<Seq<TimedSnapshot>>) -> CacheModel
    decreases srcs.len(),
{
    if srcs.len() == 0 {
        m
    } else {
        synced_all(m, srcs.drop_last()).synced(srcs.last())
    }
}

proof fn lemma_samples_concat(e: Extractor, a: Seq<TimedSnapshot>, b: Seq<TimedSnapshot>)
    ensures
        samples_of(e, a + b) == samples_of(e, a) + samples_of(e, b),
    decreases b.len(),
{
    if b.len() == 0 {
        assert(a + b =~= a);
        assert(samples_of(e, a) + samples_of(e, b) =~= samples_of(e, a));
    } else {
        assert((a + b).drop_last() =~= a + b.drop_last());
        lemma_samples_concat(e, a, b.drop_last());
        let sa = samples_of(e, a);
        let sb = samples_of(e, b.drop_last());
        if let Some(v) = extract(e, b.last().1) {
            let x = Sample { time: b.last().0, value: v };
            assert((sa + sb).push(x) =~= sa + sb.push(x));
        }
    }
}

/// Appending the samples of the unseen suffix of `b` to those of its prefix
/// `a` gives the samples of `b`.
pub proof fn law_line_append_coherent(e: Extractor, a: Seq<TimedSnapshot>, b: Seq<TimedSnapshot>)
    requires
        a.is_prefix_of(b),
    ensures
        samples_of(e, a) + samples_of(e, b.subrange(a.len() as int, b.len() as int)) == samples_of(
            e,
            b,
        ),
{
    let rest = b.subrange(a.len() as int, b.len() as int);
    assert(a + rest =~= b);
    lemma_samples_concat(e, a, rest);
}

/// Continuing the scan of the unseen suffix of `b` from the last mode
/// recorded for its prefix `a` gives the transitions of `b`.
pub proof fn law_transitions_append_coherent(a: Seq<TimedSnapshot>, b: Seq<TimedSnapshot>)
    requires
        a.is_prefix_of(b),
    ensures
        transitions_of(None, a) + transitions_of(
            last_mode(transitions_of(None, a)),
            b.subrange(a.len() as int, b.len() as int),
        ) == transitions_of(None, b),
{
    let rest = b.subrange(a.len() as int, b.len() as int);
    assert(a + rest =~= b);
    lemma_scan_concat(None, a, rest);
    lemma_scan_known(None, a);
}

/// One diff step against a continuation of the cached source keeps the
/// caches equal to a rebuild; so does any step from an empty cache.
pub proof fn law_sync_coherent(m: CacheModel, a: Seq<TimedSnapshot>, b: Seq<TimedSnapshot>)
    requires
        coherent(m, a),
        a.is_prefix_of(b),
        b.len() <= usize::MAX,
    ensures
        coherent(m.synced(b), b),
{
    let r = m.synced(b);
    if b.len() == 0 {
        assert(r.transitions =~= transitions_of(None, b));
        assert forall|i: int| 0 <= i < r.lines.len() implies (#[trigger] r.lines[i]).samples
            == samples_of(r.lines[i].extractor, b) by {}
    } else if m.fingerprint == Some(fingerprint_of(b)) {
        assert(a.len() == b.len());
        assert(a =~= b);
    } else {
        let k = keep_count(m.fingerprint, b);
        if a.len() > 0 {
            assert(b[a.len() - 1] == a[a.len() - 1]);
            assert(k == a.len());
            law_transitions_append_coherent(a, b);
            assert forall|i: int| 0 <= i < r.lines.len() implies (#[trigger] r.lines[i]).samples
                == samples_of(r.lines[i].extractor, b) by {
                law_line_append_coherent(m.lines[i].extractor, a, b);
            }
        } else {
            assert(k == 0);
            assert(b.subrange(0, b.len() as int) =~= b);
            assert forall|i: int| 0 <= i < r.lines.len() implies (#[trigger] r.lines[i]).samples
                == samples_of(r.lines[i].extractor, b) by {}
        }
    }
}

/// Taking in an append-only run of sources one diff step at a time, starting
/// from empty caches, leaves the same samples and transitions as a single
/// rebuild from the last source.
pub proof fn law_incremental_equals_rebuild(m: CacheModel, srcs: Seq<Seq<TimedSnapshot>>)
    requires
        m.fingerprint is None,
        m.transitions.len() == 0,
        forall|i: int| 0 <= i < m.lines.len() ==> (#[trigger] m.lines[i]).samples.len() == 0,
        append_only(srcs),
        forall|i: int| 0 <= i < srcs.len() ==> (#[trigger] srcs[i]).len() <= usize::MAX,
        srcs.len() > 0,
    ensures
        synced_all(m, srcs).lines.len() == m.lines.len(),
        forall|i: int| 0 <= i < m.lines.len() ==> (#[trigger] synced_all(m, srcs).lines[i]).samples
            == m.synced(srcs.last()).lines[i].samples,
        synced_all(m, srcs).transitions == m.synced(srcs.last()).transitions,
        synced_all(m, srcs).fingerprint == m.synced(srcs.last()).fingerprint,
    decreases srcs.len(),
{
    let empty = Seq::<TimedSnapshot>::empty();
    assert(coherent(m, empty)) by {
        assert(m.transitions =~= transitions_of(None, empty));
        assert forall|i: int| 0 <= i < m.lines.len() implies (#[trigger] m.lines[i]).samples
            == samples_of(m.lines[i].extractor, empty) by {
            assert(m.lines[i].samples =~= Seq::empty());
        }
    }
    lemma_synced_all_coherent(m, srcs);
    assert(empty.is_prefix_of(srcs.last()));
    law_sync_coherent(m, empty, srcs.last());
    lemma_synced_all_extractors(m, srcs);
}

proof fn lemma_synced_all_coherent(m: CacheModel, srcs: Seq<Seq<TimedSnapshot>>)
    requires
        coherent(m, Seq::empty()),
        append_only(srcs),
        forall|i: int| 0 <= i < srcs.len() ==> (#[trigger] srcs[i]).len() <= usize::MAX,
    ensures
        srcs.len() > 0 ==> coherent(synced_all(m, srcs), srcs.last()),
    decreases srcs.len(),
{
    if srcs.len() > 0 {
        let d = srcs.drop_last();
        assert(append_only(d)) by {
            assert forall|i: int| 0 < i < d.len() implies (#[trigger] d[i - 1]).is_prefix_of(d[i]) by {
                assert(srcs[i - 1].is_prefix_of(srcs[i]));
            }
        }
        lemma_synced_all_coherent(m, d);
        assert(srcs[srcs.len() - 1].len() <= usize::MAX);
        if d.len() > 0 {
            assert(srcs[srcs.len() - 2].is_prefix_of(srcs[srcs.len() - 1]));
            law_sync_coherent(synced_all(m, d), d.last(), srcs.last());
        } else {
            assert(Seq::<TimedSnapshot>::empty().is_prefix_of(srcs.last()));
            law_sync_coherent(m, Seq::empty(), srcs.last());
        }
    }
}

proof fn lemma_synced_all_extractors(m: CacheModel, srcs: Seq<Seq<TimedSnapshot>>)
    ensures
        synced_all(m, srcs).lines.len() == m.lines.len(),
        forall|i: int| 0 <= i < m.lines.len() ==> (#[trigger] synced_all(m, srcs).lines[i]).extractor
            == m.lines[i].extractor,
    decreases srcs.len(),
{
    if srcs.len() > 0 {
        lemma_synced_all_extractors(m, srcs.drop_last());
    }
}

/// A window over sorted samples reaches past its edges: it starts before
/// `xmin` when some sample lies before `xmin`, and ends at or after `xmax`
/// when some sample lies after `xmax`. It is a contiguous run of the
/// samples.
pub proof fn law_window_padding(s: Seq<Sample>, xmin: u64, xmax: u64)
    requires
        sorted(s),
    ensures
        (exists|i: int| 0 <= i < s.len() && #[trigger] s[i].time < xmin) ==> {
            &&& window_of(s, xmin, xmax).len() > 0
            &&& window_of(s, xmin, xmax)[0].time < xmin
        },
        (exists|i: int| 0 <= i < s.len() && #[trigger] s[i].time > xmax) ==> {
            &&& window_of(s, xmin, xmax).len() > 0
            &&& window_of(s, xmin, xmax).last().time >= xmax
        },
        s.len() > 0 ==> window_of(s, xmin, xmax).len() > 0,
        exists|lo: int, hi: int|
            0 <= lo <= hi <= s.len() && window_of(s, xmin, xmax) == s.subrange(lo, hi),
{
    let top = if xmax >= xmin { xmax } else { xmin };
    let lo = num_before(s, xmin) as int;
    let hi = num_before(s, top) as int;
    lemma_num_before_le(s, top);
    lemma_num_before_monotone(s, xmin, top);
    lemma_num_before_sorted(s, xmin);
    lemma_num_before_sorted(s, top);
    let a = if lo > 0 { lo - 1 } else { 0 };
    let b = if hi < s.len() { hi + 1 } else { s.len() as int };
    let w = window_of(s, xmin, xmax);
    assert(w == s.subrange(a, b));
    if exists|i: int| 0 <= i < s.len() && #[trigger] s[i].time < xmin {
        let i = choose|i: int| 0 <= i < s.len() && #[trigger] s[i].time < xmin;
        assert(lo > 0);
        assert(w[0] == s[lo - 1]);
    }
    if exists|i: int| 0 <= i < s.len() && #[trigger] s[i].time > xmax {
        let i = choose|i: int| 0 <= i < s.len() && #[trigger] s[i].time > xmax;
        if hi < s.len() {
            assert(w.last() == s[hi]);
        } else {
            assert(s[i].time <= s[s.len() - 1].time);
            assert(w.last() == s[s.len() - 1]);
        }
    }
}

/// A line with no samples answers every window with nothing, and has no
/// statistics.
pub proof fn law_empty_line_window(m: LineModel, xmin: u64, xmax: u64)
    requires
        m.samples.len() == 0,
    ensures
        m.windowed(xmin, xmax).view.len() == 0,
        m.windowed(xmin, xmax).stats is None,
        m.windowed(xmin, xmax).with_stats().stats is None,
{
}

/// Asking for statistics twice without a window change in between gives the
/// same statistics and changes nothing the second time; a window query with
/// the same bounds keeps them.
pub proof fn law_stats_cached(m: LineModel, xmin: u64, xmax: u64)
    requires
        m.wf(),
    ensures
        m.with_stats().with_stats() == m.with_stats(),
        m.with_stats().with_stats().stats == m.with_stats().stats,
        m.bounds == Some((xmin, xmax)) ==> m.windowed(xmin, xmax) == m,
        m.with_stats().bounds == Some((xmin, xmax)) ==> m.with_stats().windowed(xmin, xmax).with_stats()
            == m.with_stats(),
{
}

/// After a window change, statistics describe the new window only.
pub proof fn law_stats_follow_window(m: LineModel, xmin: u64, xmax: u64)
    requires
        m.wf(),
        m.samples.len() > 0,
    ensures
        m.windowed(xmin, xmax).with_stats().stats == Some(stats_of(window_of(m.samples, xmin, xmax))),
{
    law_window_padding(m.samples, xmin, xmax);
}

/// A second diff step against an unchanged source changes nothing.
pub proof fn law_sync_idempotent(m: CacheModel, src: Seq<TimedSnapshot>)
    requires
        src.len() <= usize::MAX,
    ensures
        m.synced(src).synced(src) == m.synced(src),
{
    let r = m.synced(src);
    if src.len() == 0 {
        assert(r.synced(src).lines =~= r.lines);
        assert(r.synced(src).transitions =~= r.transitions);
    }
}

/// Under append-only growth the recorded transitions only gain entries at
/// the end, and stay in time order.
pub proof fn law_transitions_grow(m: CacheModel, a: Seq<TimedSnapshot>, b: Seq<TimedSnapshot>)
    requires
        coherent(m, a),
        a.is_prefix_of(b),
        time_ordered(b),
        b.len() <= usize::MAX,
    ensures
        m.transitions.is_prefix_of(m.synced(b).transitions),
        m.transitions.len() <= m.synced(b).transitions.len(),
        transitions_sorted(m.synced(b).transitions),
{
    law_sync_coherent(m, a, b);
    law_transitions_append_coherent(a, b);
    lemma_scan_within(None, b);
    let rest = b.subrange(a.len() as int, b.len() as int);
    let ta = transitions_of(None, a);
    let tr = transitions_of(last_mode(ta), rest);
    assert((ta + tr).subrange(0, ta.len() as int) =~= ta);
}

/// A zoom gesture while attached, followed by a redraw with no interaction,
/// leaves the view attached with no reset pending.
pub proof fn law_zoom_then_idle_stays_attached(
    s: SharedPlotState,
    zoom: Interaction,
    chart_reset: bool,
    idle: Interaction,
)
    requires
        s.attached_to_edge,
        zoom.hovered,
        zoom.zoom_milli is Some,
        !zoom.primary_dragged,
        !zoom.primary_double_clicked,
        !zoom.drag_released,
        idle.is_idle(),
    ensures
        ({
            let s1 = after_interaction(s, zoom);
            let s2 = after_reset_step(s1, chart_reset);
            let s3 = after_interaction(s2, idle);
            &&& s1.reset_on_next_draw
            &&& s3.attached_to_edge
            &&& !s3.reset_on_next_draw
        }),
{
}

/// A primary drag detaches the view, unless a double click in the same
/// redraw re-attaches it; a released zoom box always detaches it.
pub proof fn law_drag_detaches(s: SharedPlotState, ev: Interaction)
    ensures
        ev.primary_dragged && !ev.primary_double_clicked ==> !after_interaction(s, ev).attached_to_edge,
        ev.drag_released && s.box_dragging ==> !after_interaction(s, ev).attached_to_edge,
{
}

/// A secondary drag followed by its release detaches the view.
pub proof fn law_box_zoom_detaches(s: SharedPlotState, drag: Interaction, release: Interaction)
    requires
        drag.secondary_dragged,
        release.drag_released,
    ensures
        !after_interaction(after_interaction(s, drag), release).attached_to_edge,
        !after_interaction(after_interaction(s, drag), release).box_dragging
            || release.secondary_dragged,
{
}

/// A double click attaches the view and leaves no reset pending in the
/// shared state, unless a zoom box is released in the same redraw.
pub proof fn law_double_click_attaches(s: SharedPlotState, ev: Interaction)
    requires
        ev.primary_double_clicked,
        !(ev.drag_released && s.box_dragging),
    ensures
        after_interaction(s, ev).attached_to_edge,
        !after_interaction(s, ev).reset_on_next_draw,
{
}

} // verus!
