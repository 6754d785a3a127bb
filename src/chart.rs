//! One chart: its caches, its fixed y-axis limits, and the steps of a redraw
//! that involve the shared viewport state.

use vstd::prelude::*;

use crate::line_cache::{LineModel, Rgb};
use crate::plot_cache::{plotted, CacheModel, PlotCache, PlotLine};
use crate::snapshot::{time_ordered, Extractor, TimedSnapshot};
use crate::transitions::Transition;
use crate::viewport::{after_interaction, Interaction, SharedPlotState};

verus! {

/// How a chart is to be set up before it is drawn.
#[derive(Clone, Copy, Debug, PartialEq, Eq, Structural)]
pub struct FrameSetup {
    /// The time interval the x axis must include.
    pub xmin: u64,
    pub xmax: u64,
    /// The toolkit must drop its own view of the axes and take this interval.
    pub reset: bool,
    /// Values the y axis always includes.
    pub ymin: Option<i32>,
    pub ymax: Option<i32>,
}

/// The shared state after the reset step of a redraw: any pending reset is
/// consumed, and honouring one re-attaches the view.
pub open spec fn after_reset_step(s: SharedPlotState, chart_reset: bool) -> SharedPlotState {
    if chart_reset || s.reset_on_next_draw {
        SharedPlotState { reset_on_next_draw: false, attached_to_edge: true, ..s }
    } else {
        s
    }
}

/// The abstract state of a chart.
pub struct ChartModel {
    pub title: Seq<char>,
    /// y-axis minimum (always included)
    pub ymin: Option<i32>,
    /// y-axis maximum (always included)
    pub ymax: Option<i32>,
    pub cache: CacheModel,
}

/// State held for each plot: title, y-axis limits and the cached plot values.
pub struct PlotState {
    title: String,
    cache: PlotCache,
    ymin: Option<i32>,
    ymax: Option<i32>,
}

impl View for PlotState {
    type V = ChartModel;

    closed spec fn view(&self) -> ChartModel {
        ChartModel { title: self.title@, ymin: self.ymin, ymax: self.ymax, cache: self.cache@ }
    }
}

impl PlotState {
    pub open spec fn wf(&self) -> bool {
        self@.cache.wf()
    }

    /// A chart with no lines yet.
    pub fn new(title: &str, ylimits: (Option<i32>, Option<i32>)) -> (r: Self)
        ensures
            r.wf(),
            r@.title == title@,
            r@.ymin == ylimits.0,
            r@.ymax == ylimits.1,
            r@.cache.lines.len() == 0,
            r@.cache.transitions.len() == 0,
            !r@.cache.reset_on_next_draw,
            r@.cache.fingerprint is None,
    {
        PlotState { title: title.to_owned(), cache: PlotCache::new(), ymin: ylimits.0, ymax: ylimits.1 }
    }

    /// The same chart with one more line.
    pub fn line(self, name: &str, color: Rgb, extractor: Extractor) -> (r: Self)
        requires
            self.wf(),
        ensures
            r.wf(),
            r@.title == self@.title,
            r@.ymin == self@.ymin,
            r@.ymax == self@.ymax,
            r@.cache == (CacheModel {
                lines: self@.cache.lines.push(
                    LineModel {
                        name: name@,
                        color,
                        extractor,
                        samples: Seq::empty(),
                        bounds: None,
                        view: Seq::empty(),
                        stats: None,
                    },
                ),
                ..self@.cache
            }),
    {
        let mut s = self;
        s.cache.add_line(name, color, extractor);
        s
    }

    pub fn title(&self) -> (r: &String)
        ensures
            r@ == self@.title,
    {
        &self.title
    }

    pub fn ylimits(&self) -> (r: (Option<i32>, Option<i32>))
        ensures
            r == (self@.ymin, self@.ymax),
    {
        (self.ymin, self.ymax)
    }

    pub fn cache(&self) -> (r: &PlotCache)
        ensures
            r@ == self@.cache,
    {
        &self.cache
    }

    /// Asks for this chart's axes to be reset on its next draw.
    pub fn request_reset(&mut self)
        requires
            old(self).wf(),
        ensures
            final(self).wf(),
            final(self)@.cache == (CacheModel { reset_on_next_draw: true, ..old(self)@.cache }),
            final(self)@.title == old(self)@.title,
            final(self)@.ymin == old(self)@.ymin,
            final(self)@.ymax == old(self)@.ymax,
    {
        self.cache.request_reset();
    }

    /// First step of a redraw: the interval to show, ending at the shared
    /// right edge, and whether the toolkit must reset its axes. A pending
    /// reset, of this chart or of the shared state, is honoured and consumed
    /// here, and re-attaches the view.
    pub fn begin_frame(&mut self, shared: &mut SharedPlotState) -> (r: FrameSetup)
        requires
            old(self).wf(),
        ensures
            final(self).wf(),
            final(self)@.cache == (CacheModel { reset_on_next_draw: false, ..old(self)@.cache }),
            final(self)@.title == old(self)@.title,
            final(self)@.ymin == old(self)@.ymin,
            final(self)@.ymax == old(self)@.ymax,
            *final(shared) == after_reset_step(*old(shared), old(self)@.cache.reset_on_next_draw),
            r == (FrameSetup {
                xmin: if old(shared).end >= old(shared).view_width {
                    (old(shared).end - old(shared).view_width) as u64
                } else {
                    0
                },
                xmax: old(shared).end,
                reset: old(self)@.cache.reset_on_next_draw || old(shared).reset_on_next_draw,
                ymin: old(self)@.ymin,
                ymax: old(self)@.ymax,
            }),
    {
        let (xmin, xmax) = shared.interval();
        let chart_reset = self.cache.take_reset();
        let reset = chart_reset || shared.reset_on_next_draw;
        if reset {
            shared.reset_on_next_draw = false;
            shared.attached_to_edge = true;
        }
        FrameSetup { xmin, xmax, reset, ymin: self.ymin, ymax: self.ymax }
    }

    /// The lines to draw for the interval `[xmin, xmax]` that the toolkit
    /// settled on, after bringing the caches up to date with `src`.
    pub fn plot_lines(&mut self, xmin: u64, xmax: u64, show_stats: bool, src: &[TimedSnapshot]) -> (r: Vec<PlotLine>)
        requires
            old(self).wf(),
            time_ordered(src@),
        ensures
            final(self).wf(),
            final(self)@.cache == plotted(old(self)@.cache.synced(src@), xmin, xmax, show_stats),
            final(self)@.title == old(self)@.title,
            final(self)@.ymin == old(self)@.ymin,
            final(self)@.ymax == old(self)@.ymax,
            r@.len() == final(self)@.cache.lines.len(),
            forall|i: int| 0 <= i < r@.len() ==> {
                let l = final(self)@.cache.lines[i];
                &&& (#[trigger] r@[i]).name@ == l.name
                &&& r@[i].color == l.color
                &&& r@[i].points@ == l.view
                &&& r@[i].stats == if show_stats { l.stats } else { None }
            },
    {
        self.cache.plot_lines(xmin, xmax, show_stats, src)
    }

    /// The mode transitions to mark, after bringing the caches up to date
    /// with `src`.
    pub fn mode_lines(&mut self, src: &[TimedSnapshot]) -> (r: Vec<Transition>)
        requires
            old(self).wf(),
            time_ordered(src@),
        ensures
            final(self).wf(),
            final(self)@.cache == old(self)@.cache.synced(src@),
            final(self)@.title == old(self)@.title,
            final(self)@.ymin == old(self)@.ymin,
            final(self)@.ymax == old(self)@.ymax,
            r@ == final(self)@.cache.transitions,
    {
        self.cache.mode_lines(src)
    }

    /// Last step of a redraw: folds what the toolkit reported into the shared
    /// state; a double click also asks for this chart's axes to be reset.
    pub fn process_interaction(&mut self, shared: &mut SharedPlotState, ev: Interaction)
        requires
            old(self).wf(),
        ensures
            final(self).wf(),
            final(self)@.cache == (CacheModel {
                reset_on_next_draw: old(self)@.cache.reset_on_next_draw || ev.primary_double_clicked,
                ..old(self)@.cache
            }),
            final(self)@.title == old(self)@.title,
            final(self)@.ymin == old(self)@.ymin,
            final(self)@.ymax == old(self)@.ymax,
            *final(shared) == after_interaction(*old(shared), ev),
    {
        shared.process_interaction(ev);
        if ev.primary_double_clicked {
            self.cache.request_reset();
        }
    }
}

} // verus!
