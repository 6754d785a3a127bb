//! Windowing and caching engine behind the linked telemetry charts.
//!
//! Snapshots arrive as a time-ordered sequence; each chart line keeps an
//! append-only cache of the values it extracts, answers padded window
//! queries by binary search, and computes statistics lazily. A separate
//! tracker records flight-mode changes, and a small state machine shared by
//! all linked charts folds user gestures into the common viewport.

pub mod snapshot;
pub mod line_cache;
pub mod transitions;
pub mod plot_cache;
pub mod viewport;
pub mod chart;
pub mod laws;
