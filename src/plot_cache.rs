//! The caches of one chart: a line cache per plotted quantity and the mode
//! transitions, brought up to date once per redraw by deciding between
//! appending the unseen suffix of the source and rebuilding from scratch.

use vstd::prelude::*;

use crate::line_cache::{lemma_samples_within, LineModel, PlotCacheLine, Rgb, Stats};
use crate::snapshot::{time_ordered, Extractor, Sample, TimedSnapshot};
use crate::transitions::{
    last_mode, lemma_scan_within, tracker_updated, transitions_sorted, Transition,
    TransitionTracker,
};

verus! {

/// What has been cached so far: the timestamp of the last snapshot and the
/// number of snapshots.
pub type Fingerprint = (u64, usize);

/// The fingerprint of a non-empty source.
pub open spec fn fingerprint_of(src: Seq<TimedSnapshot>) -> Fingerprint {
    (src.last().0, src.len() as usize)
}

/// How many snapshots of `src` are already cached and can be kept: the old
/// count, when the source has grown and its snapshot at the old last
/// position still carries the remembered timestamp; zero, which means a
/// rebuild, otherwise.
pub open spec fn keep_count(fp: Option<Fingerprint>, src: Seq<TimedSnapshot>) -> int {
    match fp {
        Some((t, n)) => if 0 < n < src.len() && src[n - 1].0 == t {
            n as int
        } else {
            0
        },
        None => 0,
    }
}

/// The abstract state of a chart's caches.
pub struct CacheModel {
    pub lines: Seq<LineModel>,
    pub transitions: Seq<Transition>,
    pub reset_on_next_draw: bool,
    pub fingerprint: Option<Fingerprint>,
}

impl CacheModel {
    pub open spec fn wf(self) -> bool {
        &&& forall|i: int| 0 <= i < self.lines.len() ==> (#[trigger] self.lines[i]).wf()
        &&& transitions_sorted(self.transitions)
        &&& match self.fingerprint {
            None => {
                &&& self.transitions.len() == 0
                &&& forall|i: int| 0 <= i < self.lines.len() ==> (#[trigger] self.lines[i]).samples.len() == 0
            },
            Some((t, n)) => {
                &&& forall|i: int| 0 <= i < self.transitions.len() ==> #[trigger] self.transitions[i].0 <= t
                &&& forall|i: int, j: int|
                    0 <= i < self.lines.len() && 0 <= j < self.lines[i].samples.len()
                        ==> #[trigger] self.lines[i].samples[j].time <= t
            },
        }
    }

    /// The caches after one diff step against `src`: nothing changes when the
    /// fingerprint is the same; an empty source clears everything; otherwise
    /// every line and the transitions take in the source from
    /// `keep_count` on.
    pub open spec fn synced(self, src: Seq<TimedSnapshot>) -> CacheModel {
        if src.len() == 0 {
            CacheModel {
                lines: self.lines.map_values(|l: LineModel| l.cleared()),
                transitions: Seq::empty(),
                fingerprint: None,
                ..self
            }
        } else if self.fingerprint == Some(fingerprint_of(src)) {
            self
        } else {
            let k = keep_count(self.fingerprint, src);
            CacheModel {
                lines: self.lines.map_values(|l: LineModel| l.updated(src, k)),
                transitions: tracker_updated(self.transitions, src, k),
                fingerprint: Some(fingerprint_of(src)),
                ..self
            }
        }
    }
}

/// One line ready to draw: its name, colour, the points of its window and,
/// when asked for, the statistics of those points.
pub struct PlotLine {
    pub name: String,
    pub color: Rgb,
    pub points: Vec<Sample>,
    pub stats: Option<Stats>,
}

/// Larger data structures cached for each plot, so that they are not
/// recalculated on each draw.
pub struct PlotCache {
    lines: Vec<PlotCacheLine>,
    tracker: TransitionTracker,
    reset_on_next_draw: bool,
    cached_state: Option<Fingerprint>,
}

impl View for PlotCache {
    type V = CacheModel;

    closed spec fn view(&self) -> CacheModel {
        CacheModel {
            lines: self.lines@.map_values(|l: PlotCacheLine| l@),
            transitions: self.tracker@,
            reset_on_next_draw: self.reset_on_next_draw,
            fingerprint: self.cached_state,
        }
    }
}

impl PlotCache {
    pub open spec fn wf(&self) -> bool {
        self@.wf()
    }

    /// A cache with no lines and nothing cached.
    pub fn new() -> (r: Self)
        ensures
            r.wf(),
            r@.lines.len() == 0,
            r@.transitions.len() == 0,
            !r@.reset_on_next_draw,
            r@.fingerprint is None,
    {
        let r = PlotCache {
            lines: Vec::new(),
            tracker: TransitionTracker::new(),
            reset_on_next_draw: false,
            cached_state: None,
        };
        assert(r@.lines =~= Seq::empty());
        r
    }

    /// Adds an empty line; it fills when the source next changes.
    pub fn add_line(&mut self, name: &str, color: Rgb, extractor: Extractor)
        requires
            old(self).wf(),
        ensures
            final(self).wf(),
            final(self)@ == (CacheModel {
                lines: old(self)@.lines.push(
                    LineModel {
                        name: name@,
                        color,
                        extractor,
                        samples: Seq::empty(),
                        bounds: None,
                        view: Seq::empty(),
                        stats: None,
                    },
                ),
                ..old(self)@
            }),
    {
        let line = PlotCacheLine::new(name, color, extractor);
        self.lines.push(line);
        assert(self@.lines =~= old(self)@.lines.push(line@));
    }

    /// The recorded mode transitions.
    pub fn transitions(&self) -> (r: &Vec<Transition>)
        ensures
            r@ == self@.transitions,
    {
        self.tracker.transitions()
    }

    pub fn fingerprint(&self) -> (r: Option<Fingerprint>)
        ensures
            r == self@.fingerprint,
    {
        self.cached_state
    }

    pub fn num_lines(&self) -> (r: usize)
        ensures
            r == self@.lines.len(),
    {
        self.lines.len()
    }

    /// The line at `index`.
    pub fn line(&self, index: usize) -> (r: &PlotCacheLine)
        requires
            index < self@.lines.len(),
        ensures
            r@ == self@.lines[index as int],
    {
        &self.lines[index]
    }

    pub fn reset_requested(&self) -> (r: bool)
        ensures
            r == self@.reset_on_next_draw,
    {
        self.reset_on_next_draw
    }

    /// Asks for the axes of this chart to be reset on its next draw.
    pub fn request_reset(&mut self)
        ensures
            final(self)@ == (CacheModel { reset_on_next_draw: true, ..old(self)@ }),
    {
        self.reset_on_next_draw = true;
    }

    /// Takes back a reset request; tells whether there was one.
    pub fn take_reset(&mut self) -> (r: bool)
        ensures
            r == old(self)@.reset_on_next_draw,
            final(self)@ == (CacheModel { reset_on_next_draw: false, ..old(self)@ }),
    {
        let r = self.reset_on_next_draw;
        self.reset_on_next_draw = false;
        r
    }

    /// Brings every cache up to date with `src` (see `CacheModel::synced`).
    pub fn update_caches_if_necessary(&mut self, src: &[TimedSnapshot])
        requires
            old(self).wf(),
            time_ordered(src@),
        ensures
            final(self).wf(),
            final(self)@ == old(self)@.synced(src@),
    {
        let new_len = src.len();
        proof {
            assert forall|j: int| 0 <= j < self.lines@.len() implies (#[trigger] self.lines@[j]).wf() by {
                assert(old(self)@.lines[j] == self.lines@[j]@);
            }
        }
        if new_len == 0 {
            self.tracker.clear();
            let mut i: usize = 0;
            while i < self.lines.len()
                invariant
                    i <= self.lines@.len(),
                    self.tracker@ == Seq::<Transition>::empty(),
                    self.reset_on_next_draw == old(self).reset_on_next_draw,
                    self.lines@.len() == old(self).lines@.len(),
                    forall|j: int| 0 <= j < i ==> (#[trigger] self.lines@[j])@ == old(self).lines@[j]@.cleared(),
                    forall|j: int| i <= j < self.lines@.len() ==> #[trigger] self.lines@[j] == old(self).lines@[j],
                    forall|j: int| 0 <= j < self.lines@.len() ==> (#[trigger] self.lines@[j]).wf(),
                decreases self.lines@.len() - i,
            {
                assert(self.lines@[i as int] == old(self).lines@[i as int]);
                assert(old(self)@.lines[i as int] == old(self).lines@[i as int]@);
                self.lines[i].clear_cache();
                i += 1;
            }
            self.cached_state = None;
            assert(self@.lines =~= old(self)@.lines.map_values(|l: LineModel| l.cleared()));
            return;
        }
        let last_t = src[new_len - 1].0;
        let state: Fingerprint = (last_t, new_len);
        let same = match self.cached_state {
            Some((t, n)) => t == last_t && n == new_len,
            None => false,
        };
        if same {
            return;
        }
        let old_len: usize = match self.cached_state {
            Some((_, n)) => n,
            None => 0,
        };
        let mut keep_first: usize = if new_len > old_len { old_len } else { 0 };
        if keep_first > 0 {
            // The snapshot now at the old last position must be the one that
            // was cached last; if not, this is different data.
            let previous_last = src[keep_first - 1].0;
            let matches = match self.cached_state {
                Some((t, _)) => t == previous_last,
                None => false,
            };
            if !matches {
                keep_first = 0;
            }
        }
        proof {
            if keep_first > 0 {
                assert(src@[keep_first - 1].0 <= last_t);
            }
        }
        let ghost k = keep_first as int;
        assert(k == keep_count(old(self)@.fingerprint, src@));
        let mut i: usize = 0;
        while i < self.lines.len()
            invariant
                i <= self.lines@.len(),
                self.lines@.len() == old(self).lines@.len(),
                time_ordered(src@),
                keep_first <= src@.len(),
                k == keep_first,
                self.cached_state == old(self).cached_state,
                self.tracker == old(self).tracker,
                self.reset_on_next_draw == old(self).reset_on_next_draw,
                old(self)@.wf(),
                keep_first > 0 ==> old(self).cached_state == Some((src@[keep_first - 1].0, keep_first)),
                forall|j: int| 0 <= j < i ==> (#[trigger] self.lines@[j])@ == old(self).lines@[j]@.updated(src@, k),
                forall|j: int| i <= j < self.lines@.len() ==> #[trigger] self.lines@[j] == old(self).lines@[j],
                forall|j: int| 0 <= j < self.lines@.len() ==> (#[trigger] self.lines@[j]).wf(),
            decreases self.lines@.len() - i,
        {
            assert(self.lines@[i as int] == old(self).lines@[i as int]);
            assert(old(self)@.lines[i as int] == old(self).lines@[i as int]@);
            proof {
                if keep_first > 0 {
                    assert forall|j: int| 0 <= j < self.lines@[i as int]@.samples.len() implies
                        #[trigger] self.lines@[i as int]@.samples[j].time <= src@[keep_first - 1].0 by {
                        assert(old(self)@.lines[i as int].samples[j].time <= src@[keep_first - 1].0);
                    }
                }
            }
            self.lines[i].update_cache(src, keep_first);
            i += 1;
        }
        proof {
            if keep_first > 0 {
                assert forall|j: int| 0 <= j < self.tracker@.len() implies
                    #[trigger] self.tracker@[j].0 <= src@[keep_first - 1].0 by {
                    assert(old(self)@.transitions[j].0 <= src@[keep_first - 1].0);
                }
            }
        }
        self.tracker.update(src, keep_first);
        self.cached_state = Some(state);
        proof {
            let m = old(self)@.synced(src@);
            assert(self@.lines =~= m.lines);
            let rest = src@.subrange(k, src@.len() as int);
            lemma_scan_within(if k > 0 { last_mode(old(self)@.transitions) } else { None }, rest);
            assert(rest.last() == src@.last());
            assert forall|j: int| 0 <= j < self@.transitions.len() implies
                #[trigger] self@.transitions[j].0 <= last_t by {
                let ot = old(self)@.transitions;
                if k > 0 && j < ot.len() {
                    assert(ot[j].0 <= src@[k - 1].0);
                }
            }
            assert forall|a: int, b: int|
                0 <= a < self@.lines.len() && 0 <= b < self@.lines[a].samples.len()
                    implies #[trigger] self@.lines[a].samples[b].time <= last_t by {
                let ol = old(self)@.lines[a];
                lemma_samples_within(ol.extractor, rest);
                if k > 0 && b < ol.samples.len() {
                    assert(ol.samples[b].time <= src@[k - 1].0);
                }
            }
        }
    }

    /// Brings the caches up to date, then gives each line's points for the
    /// time interval `[xmin, xmax]`, with its statistics when `show_stats`
    /// is set.
    pub fn plot_lines(&mut self, xmin: u64, xmax: u64, show_stats: bool, src: &[TimedSnapshot]) -> (r: Vec<PlotLine>)
        requires
            old(self).wf(),
            time_ordered(src@),
        ensures
            final(self).wf(),
            final(self)@ == plotted(old(self)@.synced(src@), xmin, xmax, show_stats),
            r@.len() == final(self)@.lines.len(),
            forall|i: int| 0 <= i < r@.len() ==> {
                let l = final(self)@.lines[i];
                &&& (#[trigger] r@[i]).name@ == l.name
                &&& r@[i].color == l.color
                &&& r@[i].points@ == l.view
                &&& r@[i].stats == if show_stats { l.stats } else { None }
            },
    {
        self.update_caches_if_necessary(src);
        let ghost mid = self@;
        proof {
            assert forall|j: int| 0 <= j < self.lines@.len() implies (#[trigger] self.lines@[j]).wf() by {
                assert(mid.lines[j] == self.lines@[j]@);
            }
        }
        let mut out: Vec<PlotLine> = Vec::new();
        let mut i: usize = 0;
        while i < self.lines.len()
            invariant
                i <= self.lines@.len(),
                self.lines@.len() == mid.lines.len(),
                mid.wf(),
                self.tracker@ == mid.transitions,
                self.cached_state == mid.fingerprint,
                self.reset_on_next_draw == mid.reset_on_next_draw,
                out@.len() == i,
                forall|j: int| 0 <= j < i ==> (#[trigger] self.lines@[j])@ == plotted_line(mid.lines[j], xmin, xmax, show_stats),
                forall|j: int| i <= j < self.lines@.len() ==> (#[trigger] self.lines@[j])@ == mid.lines[j],
                forall|j: int| 0 <= j < self.lines@.len() ==> (#[trigger] self.lines@[j]).wf(),
                forall|j: int| 0 <= j < i ==> {
                    let l = self.lines@[j]@;
                    &&& (#[trigger] out@[j]).name@ == l.name
                    &&& out@[j].color == l.color
                    &&& out@[j].points@ == l.view
                    &&& out@[j].stats == if show_stats { l.stats } else { None }
                },
            decreases self.lines@.len() - i,
        {
            assert(mid.lines[i as int] == self.lines@[i as int]@);
            let points = self.lines[i].data_for_bounds(xmin, xmax);
            let stats = if show_stats { self.lines[i].stats() } else { None };
            let name = self.lines[i].name().clone();
            let color = self.lines[i].color();
            out.push(PlotLine { name, color, points, stats });
            i += 1;
        }
        assert(self@.lines =~= plotted(mid, xmin, xmax, show_stats).lines);
        out
    }

    /// Brings the caches up to date, then gives the mode transitions to mark.
    pub fn mode_lines(&mut self, src: &[TimedSnapshot]) -> (r: Vec<Transition>)
        requires
            old(self).wf(),
            time_ordered(src@),
        ensures
            final(self).wf(),
            final(self)@ == old(self)@.synced(src@),
            r@ == final(self)@.transitions,
    {
        self.update_caches_if_necessary(src);
        let t = self.tracker.transitions();
        let mut r: Vec<Transition> = Vec::with_capacity(t.len());
        let mut i: usize = 0;
        while i < t.len()
            invariant
                i <= t@.len(),
                r@ == t@.subrange(0, i as int),
            decreases t@.len() - i,
        {
            r.push(t[i]);
            i += 1;
        }
        assert(r@ =~= t@);
        r
    }
}

/// A line after its window query and, when `show_stats` is set, its
/// statistics query.
pub open spec fn plotted_line(l: LineModel, xmin: u64, xmax: u64, show_stats: bool) -> LineModel {
    if show_stats {
        l.windowed(xmin, xmax).with_stats()
    } else {
        l.windowed(xmin, xmax)
    }
}

/// The caches after every line has been queried for `[xmin, xmax]`.
pub open spec fn plotted(m: CacheModel, xmin: u64, xmax: u64, show_stats: bool) -> CacheModel {
    CacheModel {
        lines: m.lines.map_values(|l: LineModel| plotted_line(l, xmin, xmax, show_stats)),
        ..m
    }
}

} // verus!
