//! The per-line cache: an append-only series of samples, the padded view of
//! it that was last asked for, and statistics over that view, computed on
//! demand.

use vstd::prelude::*;

use crate::snapshot::{samples_of, time_ordered, Extractor, Sample, TimedSnapshot};

verus! {

/// Display colour of a line.
#[derive(Clone, Copy, Debug, PartialEq, Eq, Structural)]
pub struct Rgb {
    pub r: u8,
    pub g: u8,
    pub b: u8,
}

/// Summary of a non-empty view, kept exact: the mean is `sum / count`, the
/// population variance `sum_squares / count - mean * mean`.
#[derive(Clone, Copy, Debug, PartialEq, Eq, Structural)]
pub struct Stats {
    pub count: usize,
    pub sum: i128,
    pub sum_squares: i128,
    pub min: i32,
    pub max: i32,
}

/// Sample times never decrease along `s`.
pub open spec fn sorted(s: Seq<Sample>) -> bool {
    forall|i: int, j: int| 0 <= i <= j < s.len() ==> s[i].time <= s[j].time
}

/// How many samples of `s` lie strictly before time `x`; on a sorted series
/// this is the first index whose time is at or after `x`.
pub open spec fn num_before(s: Seq<Sample>, x: u64) -> nat
    decreases s.len(),
{
    if s.len() == 0 {
        0
    } else {
        num_before(s.drop_last(), x) + if s.last().time < x {
            1nat
        } else {
            0nat
        }
    }
}

/// The padded window over `[xmin, xmax]`: the samples inside it, plus the
/// last sample before `xmin` and the first at or after `xmax`, where those
/// exist.
pub open spec fn window_of(s: Seq<Sample>, xmin: u64, xmax: u64) -> Seq<Sample> {
    let lo = num_before(s, xmin) as int;
    let hi = num_before(s, if xmax >= xmin { xmax } else { xmin }) as int;
    s.subrange(
        if lo > 0 { lo - 1 } else { 0 },
        if hi < s.len() { hi + 1 } else { s.len() as int },
    )
}

pub open spec fn sum_of(s: Seq<Sample>) -> int
    decreases s.len(),
{
    if s.len() == 0 {
        0
    } else {
        sum_of(s.drop_last()) + s.last().value
    }
}

pub open spec fn sum_squares_of(s: Seq<Sample>) -> int
    decreases s.len(),
{
    if s.len() == 0 {
        0
    } else {
        sum_squares_of(s.drop_last()) + s.last().value * s.last().value
    }
}

pub open spec fn min_of(s: Seq<Sample>) -> i32
    decreases s.len(),
{
    if s.len() <= 1 {
        if s.len() == 1 { s[0].value } else { 0 }
    } else {
        let m = min_of(s.drop_last());
        if s.last().value < m { s.last().value } else { m }
    }
}

pub open spec fn max_of(s: Seq<Sample>) -> i32
    decreases s.len(),
{
    if s.len() <= 1 {
        if s.len() == 1 { s[0].value } else { 0 }
    } else {
        let m = max_of(s.drop_last());
        if s.last().value > m { s.last().value } else { m }
    }
}

/// The statistics of a non-empty series.
pub open spec fn stats_of(s: Seq<Sample>) -> Stats {
    Stats {
        count: s.len() as usize,
        sum: sum_of(s) as i128,
        sum_squares: sum_squares_of(s) as i128,
        min: min_of(s),
        max: max_of(s),
    }
}

/// The abstract state of a line cache.
pub struct LineModel {
    pub name: Seq<char>,
    pub color: Rgb,
    pub extractor: Extractor,
    /// Every sample cached so far, in time order.
    pub samples: Seq<Sample>,
    /// The bounds the view was last computed for.
    pub bounds: Option<(u64, u64)>,
    pub view: Seq<Sample>,
    pub stats: Option<Stats>,
}

impl LineModel {
    pub open spec fn wf(self) -> bool {
        &&& sorted(self.samples)
        &&& match self.bounds {
            Some((a, b)) => self.samples.len() > 0 && self.view == window_of(self.samples, a, b),
            None => self.view.len() == 0 && self.stats is None,
        }
        &&& self.stats matches Some(st) ==> self.view.len() > 0 && st == stats_of(self.view)
    }

    /// The same line with samples, view and statistics dropped.
    pub open spec fn cleared(self) -> LineModel {
        LineModel { samples: Seq::empty(), bounds: None, view: Seq::empty(), stats: None, ..self }
    }

    /// The line after taking in `src` from index `keep` on: appended to the
    /// cached samples when `keep > 0`, replacing them otherwise. The view is
    /// dropped, since it no longer describes the series.
    pub open spec fn updated(self, src: Seq<TimedSnapshot>, keep: int) -> LineModel {
        let fresh = samples_of(self.extractor, src.subrange(keep, src.len() as int));
        LineModel {
            samples: if keep > 0 { self.samples + fresh } else { fresh },
            ..self.cleared()
        }
    }

    /// The line after a window query over `[xmin, xmax]`.
    pub open spec fn windowed(self, xmin: u64, xmax: u64) -> LineModel {
        if self.samples.len() == 0 {
            self.cleared()
        } else if self.bounds == Some((xmin, xmax)) {
            self
        } else {
            LineModel {
                bounds: Some((xmin, xmax)),
                view: window_of(self.samples, xmin, xmax),
                stats: None,
                ..self
            }
        }
    }

    /// The line after a statistics query: computed once per view.
    pub open spec fn with_stats(self) -> LineModel {
        if self.stats is None && self.view.len() > 0 {
            LineModel { stats: Some(stats_of(self.view)), ..self }
        } else {
            self
        }
    }
}

/// Cache for a single line of a chart.
pub struct PlotCacheLine {
    name: String,
    color: Rgb,
    extractor: Extractor,
    data: Vec<Sample>,
    stats: Option<Stats>,
    last_bounds: Option<(u64, u64)>,
    last_view: Vec<Sample>,
}

impl View for PlotCacheLine {
    type V = LineModel;

    closed spec fn view(&self) -> LineModel {
        LineModel {
            name: self.name@,
            color: self.color,
            extractor: self.extractor,
            samples: self.data@,
            bounds: self.last_bounds,
            view: self.last_view@,
            stats: self.stats,
        }
    }
}

pub proof fn lemma_num_before_le(s: Seq<Sample>, x: u64)
    ensures
        num_before(s, x) <= s.len(),
    decreases s.len(),
{
    if s.len() > 0 {
        lemma_num_before_le(s.drop_last(), x);
    }
}

pub proof fn lemma_num_before_monotone(s: Seq<Sample>, x: u64, y: u64)
    requires
        x <= y,
    ensures
        num_before(s, x) <= num_before(s, y),
    decreases s.len(),
{
    if s.len() > 0 {
        lemma_num_before_monotone(s.drop_last(), x, y);
    }
}

/// An index that splits `s` into samples before `x` and samples at or after
/// it is the number of samples before `x`.
pub proof fn lemma_num_before_split(s: Seq<Sample>, x: u64, k: int)
    requires
        0 <= k <= s.len(),
        forall|i: int| 0 <= i < k ==> #[trigger] s[i].time < x,
        forall|i: int| k <= i < s.len() ==> #[trigger] s[i].time >= x,
    ensures
        num_before(s, x) == k,
    decreases s.len(),
{
    if s.len() > 0 {
        let d = s.drop_last();
        if k == s.len() {
            assert(s[s.len() - 1].time < x);
            lemma_num_before_split(d, x, k - 1);
        } else {
            assert(s[s.len() - 1].time >= x);
            lemma_num_before_split(d, x, k);
        }
    }
}

/// On a sorted series, the samples before `num_before(s, x)` lie before `x`
/// and the others do not.
pub proof fn lemma_num_before_sorted(s: Seq<Sample>, x: u64)
    requires
        sorted(s),
    ensures
        forall|i: int| 0 <= i < num_before(s, x) ==> #[trigger] s[i].time < x,
        forall|i: int| num_before(s, x) <= i < s.len() ==> #[trigger] s[i].time >= x,
    decreases s.len(),
{
    if s.len() > 0 {
        let d = s.drop_last();
        assert(sorted(d));
        lemma_num_before_sorted(d, x);
        lemma_num_before_le(d, x);
        if s.last().time < x {
            if num_before(d, x) < d.len() {
                let k = num_before(d, x) as int;
                assert(d[k].time >= x);
                assert(s[k].time <= s[s.len() - 1].time);
            }
            assert forall|i: int| 0 <= i < num_before(s, x) implies #[trigger] s[i].time < x by {
                if i < d.len() {
                    assert(s[i].time <= s[s.len() - 1].time);
                }
            }
        } else {
            assert forall|i: int| 0 <= i < num_before(s, x) implies #[trigger] s[i].time < x by {
                assert(d[i].time < x);
            }
            assert forall|i: int| num_before(s, x) <= i < s.len() implies #[trigger] s[i].time
                >= x by {
                if i < d.len() {
                    assert(d[i].time >= x);
                }
            }
        }
    }
}

pub proof fn lemma_stats_bounds(s: Seq<Sample>)
    ensures
        -0x8000_0000 * s.len() <= sum_of(s) <= 0x7fff_ffff * s.len(),
        0 <= sum_squares_of(s) <= 0x4000_0000_0000_0000 * s.len(),
    decreases s.len(),
{
    if s.len() > 0 {
        lemma_stats_bounds(s.drop_last());
        let v = s.last().value as int;
        assert(0 <= v * v <= 0x4000_0000_0000_0000) by (nonlinear_arith)
            requires
                -0x8000_0000 <= v <= 0x7fff_ffff,
        ;
    }
}

/// Index of the first sample at or after `from` whose time is not before `x`,
/// found by binary search.
fn first_not_before(data: &Vec<Sample>, from: usize, x: u64) -> (r: usize)
    requires
        sorted(data@),
        from <= data@.len(),
    ensures
        from <= r <= data@.len(),
        forall|i: int| from <= i < r ==> #[trigger] data@[i].time < x,
        forall|i: int| r <= i < data@.len() ==> #[trigger] data@[i].time >= x,
{
    let mut lo: usize = from;
    let mut hi: usize = data.len();
    while lo < hi
        invariant
            sorted(data@),
            from <= lo <= hi <= data@.len(),
            forall|i: int| from <= i < lo ==> #[trigger] data@[i].time < x,
            forall|i: int| hi <= i < data@.len() ==> #[trigger] data@[i].time >= x,
        decreases hi - lo,
    {
        let mid = lo + (hi - lo) / 2;
        if data[mid].time < x {
            assert forall|i: int| from <= i < mid + 1 implies #[trigger] data@[i].time < x by {
                assert(data@[i].time <= data@[mid as int].time);
            }
            lo = mid + 1;
        } else {
            assert forall|i: int| mid <= i < data@.len() implies #[trigger] data@[i].time >= x by {
                assert(data@[mid as int].time <= data@[i].time);
            }
            hi = mid;
        }
    }
    lo
}

fn copy_samples(v: &Vec<Sample>) -> (r: Vec<Sample>)
    ensures
        r@ == v@,
{
    let mut r: Vec<Sample> = Vec::with_capacity(v.len());
    let mut i: usize = 0;
    while i < v.len()
        invariant
            i <= v@.len(),
            r@ == v@.subrange(0, i as int),
        decreases v@.len() - i,
    {
        r.push(v[i]);
        i += 1;
    }
    assert(r@ =~= v@);
    r
}

impl PlotCacheLine {
    pub open spec fn wf(&self) -> bool {
        self@.wf()
    }

    /// A line with no samples yet.
    pub fn new(name: &str, color: Rgb, extractor: Extractor) -> (r: Self)
        ensures
            r.wf(),
            r@ == (LineModel {
                name: name@,
                color,
                extractor,
                samples: Seq::empty(),
                bounds: None,
                view: Seq::empty(),
                stats: None,
            }),
    {
        PlotCacheLine {
            name: name.to_owned(),
            color,
            extractor,
            data: Vec::new(),
            stats: None,
            last_bounds: None,
            last_view: Vec::new(),
        }
    }

    pub fn name(&self) -> (r: &String)
        ensures
            r@ == self@.name,
    {
        &self.name
    }

    pub fn color(&self) -> (r: Rgb)
        ensures
            r == self@.color,
    {
        self.color
    }

    pub fn extractor(&self) -> (r: Extractor)
        ensures
            r == self@.extractor,
    {
        self.extractor
    }

    /// Every sample cached so far.
    pub fn samples(&self) -> (r: &Vec<Sample>)
        ensures
            r@ == self@.samples,
    {
        &self.data
    }

    /// Statistics of the current view, if they have been computed.
    pub fn cached_stats(&self) -> (r: Option<Stats>)
        ensures
            r == self@.stats,
    {
        self.stats
    }

    /// Takes in the snapshots of `src` from index `keep_first` on, appending
    /// to the cached samples when `keep_first > 0` and replacing them
    /// otherwise. The caller vouches that, when appending, no cached sample
    /// is later than the snapshot before `keep_first`.
    pub fn update_cache(&mut self, src: &[TimedSnapshot], keep_first: usize)
        requires
            old(self).wf(),
            time_ordered(src@),
            keep_first <= src@.len(),
            keep_first > 0 ==> forall|i: int|
                0 <= i < old(self)@.samples.len() ==> #[trigger] old(self)@.samples[i].time
                    <= src@[keep_first - 1].0,
        ensures
            final(self).wf(),
            final(self)@ == old(self)@.updated(src@, keep_first as int),
    {
        let ghost e = self.extractor;
        let ghost base = if keep_first > 0 { self.data@ } else { Seq::<Sample>::empty() };
        if keep_first == 0 {
            self.data.clear();
        }
        let mut i: usize = keep_first;
        while i < src.len()
            invariant
                keep_first <= i <= src@.len(),
                e == self.extractor,
                self.name == old(self).name,
                self.color == old(self).color,
                self.data@ == base + samples_of(e, src@.subrange(keep_first as int, i as int)),
            decreases src@.len() - i,
        {
            let ghost before = src@.subrange(keep_first as int, i as int);
            let ghost after = src@.subrange(keep_first as int, i + 1);
            assert(after.drop_last() =~= before);
            match self.extractor.extract(&src[i].1) {
                Some(v) => {
                    self.data.push(Sample { time: src[i].0, value: v });
                },
                None => {},
            }
            i += 1;
        }
        self.last_bounds = None;
        self.last_view.clear();
        self.stats = None;
        proof {
            let fresh = samples_of(e, src@.subrange(keep_first as int, src@.len() as int));
            lemma_samples_within(e, src@.subrange(keep_first as int, src@.len() as int));
            lemma_samples_sorted(e, src@.subrange(keep_first as int, src@.len() as int));
            assert(self.data@ =~= if keep_first > 0 { old(self)@.samples + fresh } else { fresh });
            assert forall|a: int, b: int| 0 <= a <= b < self.data@.len() implies
                self.data@[a].time <= self.data@[b].time by {
                if a < base.len() && b >= base.len() {
                    let k = keep_first as int;
                    assert(src@[k - 1].0 <= src@[k + 0].0);
                    let j = b - base.len();
                    assert(fresh[j].time >= src@.subrange(k, src@.len() as int)[0].0);
                }
            }
            let m = old(self)@.updated(src@, keep_first as int);
            assert(self@.view =~= m.view);
            assert(self@ =~= m);
        }
    }

    /// Drops every cached sample, the view and its statistics; the extractor
    /// stays.
    pub fn clear_cache(&mut self)
        requires
            old(self).wf(),
        ensures
            final(self).wf(),
            final(self)@ == old(self)@.cleared(),
    {
        self.data.clear();
        self.last_bounds = None;
        self.last_view.clear();
        self.stats = None;
        assert(self@ =~= old(self)@.cleared());
    }

    /// The samples to draw for the time interval `[xmin, xmax]`, padded by
    /// one sample on each side where there is one. Bounds equal to those of
    /// the last query give back the cached view without any work.
    pub fn data_for_bounds(&mut self, xmin: u64, xmax: u64) -> (r: Vec<Sample>)
        requires
            old(self).wf(),
        ensures
            final(self).wf(),
            final(self)@ == old(self)@.windowed(xmin, xmax),
            r@ == final(self)@.view,
    {
        if self.data.len() == 0 {
            self.last_bounds = None;
            self.last_view.clear();
            self.stats = None;
            assert(self.data@ =~= Seq::empty());
            assert(self@ =~= old(self)@.windowed(xmin, xmax));
            return Vec::new();
        }
        let same = match self.last_bounds {
            Some((a, b)) => a == xmin && b == xmax,
            None => false,
        };
        if !same {
            let imin = first_not_before(&self.data, 0, xmin);
            let imax = first_not_before(&self.data, imin, xmax);
            proof {
                let s = self.data@;
                let top = if xmax >= xmin { xmax } else { xmin };
                lemma_num_before_split(s, xmin, imin as int);
                assert forall|i: int| 0 <= i < imax implies #[trigger] s[i].time < top by {
                    if i >= imin {
                        assert(s[i].time < xmax);
                    }
                }
                assert forall|i: int| imax <= i < s.len() implies #[trigger] s[i].time >= top by {
                    assert(s[i].time >= xmin);
                }
                lemma_num_before_split(s, top, imax as int);
            }
            let lo = if imin > 0 { imin - 1 } else { 0 };
            let hi = if imax < self.data.len() { imax + 1 } else { self.data.len() };
            let mut view: Vec<Sample> = Vec::with_capacity(hi - lo);
            let mut i: usize = lo;
            while i < hi
                invariant
                    lo <= i <= hi <= self.data@.len(),
                    view@ == self.data@.subrange(lo as int, i as int),
                decreases hi - i,
            {
                view.push(self.data[i]);
                i += 1;
            }
            self.last_view = view;
            self.last_bounds = Some((xmin, xmax));
            self.stats = None;
            assert(self.last_view@ =~= window_of(self.data@, xmin, xmax));
        }
        assert(self@.view =~= old(self)@.windowed(xmin, xmax).view);
        assert(self@ =~= old(self)@.windowed(xmin, xmax));
        copy_samples(&self.last_view)
    }

    /// Statistics of the current view, computed at most once per view;
    /// absent when the view is empty.
    pub fn stats(&mut self) -> (r: Option<Stats>)
        requires
            old(self).wf(),
        ensures
            final(self).wf(),
            final(self)@ == old(self)@.with_stats(),
            r == final(self)@.stats,
            r is None <==> old(self)@.view.len() == 0,
    {
        if self.stats.is_none() && self.last_view.len() > 0 {
            let st = compute_stats(&self.last_view);
            self.stats = Some(st);
        }
        assert(self@ =~= old(self)@.with_stats());
        self.stats
    }
}

/// Count, sum, sum of squares, minimum and maximum of a non-empty series,
/// in one pass.
fn compute_stats(v: &Vec<Sample>) -> (r: Stats)
    requires
        v@.len() > 0,
    ensures
        r == stats_of(v@),
{
    let mut sum: i128 = 0;
    let mut sum_squares: i128 = 0;
    let mut min: i32 = v[0].value;
    let mut max: i32 = v[0].value;
    let mut i: usize = 0;
    while i < v.len()
        invariant
            i <= v@.len(),
            v@.len() > 0,
            sum == sum_of(v@.subrange(0, i as int)),
            sum_squares == sum_squares_of(v@.subrange(0, i as int)),
            i == 0 ==> min == v@[0].value && max == v@[0].value,
            i > 0 ==> min == min_of(v@.subrange(0, i as int)),
            i > 0 ==> max == max_of(v@.subrange(0, i as int)),
        decreases v@.len() - i,
    {
        let ghost pre = v@.subrange(0, i as int);
        let ghost post = v@.subrange(0, i + 1);
        assert(post.drop_last() =~= pre);
        proof {
            lemma_stats_bounds(post);
            assert(post.len() <= usize::MAX);
        }
        let x = v[i].value;
        proof {
            let xi = x as int;
            assert(0 <= xi * xi <= 0x4000_0000_0000_0000) by (nonlinear_arith)
                requires
                    -0x8000_0000 <= xi <= 0x7fff_ffff,
            ;
            assert(sum_squares_of(post) == sum_squares_of(pre) + xi * xi);
        }
        sum = sum + x as i128;
        sum_squares = sum_squares + (x as i128) * (x as i128);
        if i > 0 {
            if x < min {
                min = x;
            }
            if x > max {
                max = x;
            }
        }
        i += 1;
    }
    assert(v@.subrange(0, v@.len() as int) =~= v@);
    Stats { count: v.len(), sum, sum_squares, min, max }
}

/// Every sample comes from a snapshot of `src`, so its time lies within the
/// source's time range.
pub proof fn lemma_samples_within(e: Extractor, src: Seq<TimedSnapshot>)
    requires
        time_ordered(src),
    ensures
        forall|i: int|
            0 <= i < samples_of(e, src).len() ==> src[0].0 <= #[trigger] samples_of(e, src)[i].time
                <= src.last().0,
        samples_of(e, src).len() <= src.len(),
    decreases src.len(),
{
    if src.len() > 0 {
        let d = src.drop_last();
        lemma_samples_within(e, d);
        if d.len() > 0 {
            assert(d[0].0 == src[0].0);
            assert(d.last().0 <= src.last().0);
        }
    }
}

pub proof fn lemma_samples_sorted(e: Extractor, src: Seq<TimedSnapshot>)
    requires
        time_ordered(src),
    ensures
        sorted(samples_of(e, src)),
    decreases src.len(),
{
    if src.len() > 0 {
        let d = src.drop_last();
        lemma_samples_sorted(e, d);
        lemma_samples_within(e, d);
        if d.len() > 0 {
            assert(d.last().0 <= src.last().0);
        }
    }
}

} // verus!
