//! Interaction state shared by all linked charts: how wide the visible
//! window is, whether it follows the newest data, and the one-shot reset
//! request that re-anchors it.

use vstd::prelude::*;

verus! {

/// Width of the visible window before any zoom: ten seconds, in microseconds.
pub const DEFAULT_VIEW_WIDTH: u64 = 10_000_000;

/// What the rendering toolkit reported about one chart during a redraw.
#[derive(Clone, Copy, Debug, PartialEq, Eq, Structural)]
pub struct Interaction {
    /// The pointer is over the chart.
    pub hovered: bool,
    /// Horizontal zoom factor in thousandths, when a zoom gesture happened.
    pub zoom_milli: Option<u64>,
    /// A horizontal scroll happened.
    pub scrolled_x: bool,
    pub primary_dragged: bool,
    pub primary_double_clicked: bool,
    /// A drag ended.
    pub drag_released: bool,
    pub secondary_dragged: bool,
}

impl Interaction {
    /// A redraw during which the user did nothing.
    pub open spec fn is_idle(self) -> bool {
        &&& !self.hovered
        &&& !self.primary_dragged
        &&& !self.primary_double_clicked
        &&& !self.drag_released
        &&& !self.secondary_dragged
    }
}

/// The window width after zooming by `zoom_milli / 1000`, saturating; a zoom
/// factor of zero widens it as far as it goes.
pub open spec fn zoomed_width(width: u64, zoom_milli: u64) -> u64 {
    if zoom_milli == 0 || width * 1000 / (zoom_milli as int) > u64::MAX {
        u64::MAX
    } else {
        (width * 1000 / (zoom_milli as int)) as u64
    }
}

/// State shared by all linked plots.
#[derive(Clone, Copy, Debug, PartialEq, Eq, Structural)]
pub struct SharedPlotState {
    /// Time at which the state was created (microseconds).
    pub start: u64,
    /// Time of the right edge of the view (microseconds).
    pub end: u64,
    /// Does the view follow the newest data?
    pub attached_to_edge: bool,
    /// Width of the view (microseconds).
    pub view_width: u64,
    /// The next draw re-anchors the view at the right edge.
    pub reset_on_next_draw: bool,
    /// A zoom box is being dragged out.
    pub box_dragging: bool,
    pub show_stats: bool,
}

/// The state after one redraw's interaction events, applied in the order the
/// toolkit reports them.
pub open spec fn after_interaction(s: SharedPlotState, ev: Interaction) -> SharedPlotState {
    let s1 = if ev.hovered {
        match ev.zoom_milli {
            Some(z) => after_zoom(s, z),
            None => if ev.scrolled_x {
                SharedPlotState { attached_to_edge: false, ..s }
            } else {
                s
            },
        }
    } else {
        s
    };
    let s2 = if ev.primary_dragged {
        SharedPlotState { attached_to_edge: false, ..s1 }
    } else {
        s1
    };
    let s3 = if ev.primary_double_clicked {
        SharedPlotState { attached_to_edge: true, reset_on_next_draw: false, ..s2 }
    } else {
        s2
    };
    let s4 = after_drag_released(s3, ev.drag_released);
    SharedPlotState { box_dragging: s4.box_dragging || ev.secondary_dragged, ..s4 }
}

/// The state after a zoom gesture: the window narrows by the zoom factor and,
/// when it followed the newest data, is re-anchored on the next draw.
pub open spec fn after_zoom(s: SharedPlotState, zoom_milli: u64) -> SharedPlotState {
    SharedPlotState {
        view_width: zoomed_width(s.view_width, zoom_milli),
        reset_on_next_draw: s.reset_on_next_draw || s.attached_to_edge,
        ..s
    }
}

/// A completed zoom box always detaches the view.
pub open spec fn after_drag_released(s: SharedPlotState, released: bool) -> SharedPlotState {
    if released && s.box_dragging {
        SharedPlotState { attached_to_edge: false, box_dragging: false, ..s }
    } else {
        s
    }
}

impl SharedPlotState {
    /// Fresh state at time `now`: attached, ten seconds wide, nothing pending.
    pub fn new(now: u64) -> (r: Self)
        ensures
            r == (SharedPlotState {
                start: now,
                end: now,
                attached_to_edge: true,
                view_width: DEFAULT_VIEW_WIDTH,
                reset_on_next_draw: false,
                box_dragging: false,
                show_stats: false,
            }),
    {
        SharedPlotState {
            start: now,
            end: now,
            attached_to_edge: true,
            view_width: DEFAULT_VIEW_WIDTH,
            reset_on_next_draw: false,
            box_dragging: false,
            show_stats: false,
        }
    }

    /// Moves the right edge to `end`, or back to the start when there is no
    /// data.
    pub fn set_end(&mut self, end: Option<u64>)
        ensures
            *final(self) == (SharedPlotState {
                end: match end {
                    Some(e) => e,
                    None => old(self).start,
                },
                ..*old(self)
            }),
    {
        self.end = match end {
            Some(e) => e,
            None => self.start,
        };
    }

    /// The visible time interval: `view_width` back from `end`, clamped at 0.
    pub fn interval(&self) -> (r: (u64, u64))
        ensures
            r == (if self.end >= self.view_width { (self.end - self.view_width) as u64 } else { 0 }, self.end),
    {
        (self.end.saturating_sub(self.view_width), self.end)
    }

    pub fn process_zoom(&mut self, zoom_milli: u64)
        ensures
            *final(self) == after_zoom(*old(self), zoom_milli),
    {
        self.view_width = if zoom_milli == 0 {
            u64::MAX
        } else {
            let wide: u128 = (self.view_width as u128) * 1000 / (zoom_milli as u128);
            if wide > u64::MAX as u128 {
                u64::MAX
            } else {
                wide as u64
            }
        };
        // Zooming usually detaches the toolkit's plot from the edge, so
        // re-attach if we were attached: zooming then keeps the newest data
        // in view.
        self.reset_on_next_draw = self.reset_on_next_draw || self.attached_to_edge;
    }

    pub fn process_box_dragging(&mut self, box_dragging: bool)
        ensures
            *final(self) == (SharedPlotState {
                box_dragging: old(self).box_dragging || box_dragging,
                ..*old(self)
            }),
    {
        self.box_dragging = self.box_dragging || box_dragging;
    }

    pub fn process_drag_released(&mut self, released: bool)
        ensures
            *final(self) == after_drag_released(*old(self), released),
    {
        if released && self.box_dragging {
            self.attached_to_edge = false;
            self.box_dragging = false;
        }
    }

    /// Folds one redraw's interaction events into the state.
    pub fn process_interaction(&mut self, ev: Interaction)
        ensures
            *final(self) == after_interaction(*old(self), ev),
    {
        if ev.hovered {
            match ev.zoom_milli {
                Some(z) => self.process_zoom(z),
                None => {
                    if ev.scrolled_x {
                        self.attached_to_edge = false;
                    }
                },
            }
        }
        if ev.primary_dragged {
            self.attached_to_edge = false;
        }
        if ev.primary_double_clicked {
            self.attached_to_edge = true;
            self.reset_on_next_draw = false;
        }
        self.process_drag_released(ev.drag_released);
        self.process_box_dragging(ev.secondary_dragged);
    }
}

} // verus!
