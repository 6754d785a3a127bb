//! Snapshots as handed in by the data source, and the samples a line
//! extracts from them.

use vstd::prelude::*;

verus! {

/// One decoded telemetry state: a fixed set of numeric channels (any of
/// which may be missing) and the discrete flight mode, if known.
#[derive(Clone, Debug)]
pub struct Snapshot {
    pub channels: Vec<Option<i32>>,
    pub mode: Option<u8>,
}

/// A data source's snapshots, each with its timestamp in microseconds.
pub type TimedSnapshot = (u64, Snapshot);

/// A point of a line: timestamp and extracted value.
#[derive(Clone, Copy, Debug, PartialEq, Eq, Structural)]
pub struct Sample {
    pub time: u64,
    pub value: i32,
}

/// Selects which value of a snapshot a line plots.
#[derive(Clone, Copy, Debug, PartialEq, Eq, Structural)]
pub struct Extractor {
    pub channel: usize,
}

/// The value `e` reads from `s`; a channel the snapshot lacks reads as missing.
pub open spec fn extract(e: Extractor, s: Snapshot) -> Option<i32> {
    if e.channel < s.channels@.len() {
        s.channels@[e.channel as int]
    } else {
        None
    }
}

/// The samples a line derives from `src`, in order; snapshots for which the
/// extractor yields no value are skipped.
pub open spec fn samples_of(e: Extractor, src: Seq<TimedSnapshot>) -> Seq<Sample>
    decreases src.len(),
{
    if src.len() == 0 {
        Seq::empty()
    } else {
        let prev = samples_of(e, src.drop_last());
        match extract(e, src.last().1) {
            Some(v) => prev.push(Sample { time: src.last().0, value: v }),
            None => prev,
        }
    }
}

/// Timestamps never decrease along the source.
pub open spec fn time_ordered(src: Seq<TimedSnapshot>) -> bool {
    forall|i: int, j: int| 0 <= i <= j < src.len() ==> src[i].0 <= src[j].0
}

impl Extractor {
    /// Reads this extractor's value from `s`.
    pub fn extract(&self, s: &Snapshot) -> (r: Option<i32>)
        ensures
            r == extract(*self, *s),
    {
        if self.channel < s.channels.len() {
            s.channels[self.channel]
        } else {
            None
        }
    }
}

} // verus!
