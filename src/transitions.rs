//! Flight-mode changes along the source, kept incrementally.

use vstd::prelude::*;

use crate::snapshot::{time_ordered, TimedSnapshot};

verus! {

/// A recorded change of flight mode: when it happened and the new mode.
pub type Transition = (u64, u8);

/// Scans `src` for mode changes, starting from the known mode `init`.
/// Returns the changes found and the mode known at the end. Snapshots
/// without a mode are passed over; an unknown starting mode differs from
/// every real one.
pub open spec fn scan_modes(init: Option<u8>, src: Seq<TimedSnapshot>) -> (Seq<Transition>, Option<u8>)
    decreases src.len(),
{
    if src.len() == 0 {
        (Seq::empty(), init)
    } else {
        let (ts, known) = scan_modes(init, src.drop_last());
        match src.last().1.mode {
            Some(m) => if known == Some(m) {
                (ts, known)
            } else {
                (ts.push((src.last().0, m)), Some(m))
            },
            None => (ts, known),
        }
    }
}

pub open spec fn transitions_of(init: Option<u8>, src: Seq<TimedSnapshot>) -> Seq<Transition> {
    scan_modes(init, src).0
}

/// The mode of the last recorded transition, unknown if there is none.
pub open spec fn last_mode(ts: Seq<Transition>) -> Option<u8> {
    if ts.len() > 0 {
        Some(ts.last().1)
    } else {
        None
    }
}

/// Transition times never decrease.
pub open spec fn transitions_sorted(ts: Seq<Transition>) -> bool {
    forall|i: int, j: int| 0 <= i <= j < ts.len() ==> ts[i].0 <= ts[j].0
}

/// The list after taking in `src` from index `keep` on: when `keep > 0` the
/// scan continues from the last recorded mode and appends, otherwise it
/// starts over from an unknown mode.
pub open spec fn tracker_updated(ts: Seq<Transition>, src: Seq<TimedSnapshot>, keep: int) -> Seq<Transition> {
    let rest = src.subrange(keep, src.len() as int);
    if keep > 0 {
        ts + transitions_of(last_mode(ts), rest)
    } else {
        transitions_of(None, rest)
    }
}

/// The mode known after a scan is the last one recorded, or the starting
/// mode if nothing was recorded.
pub proof fn lemma_scan_known(init: Option<u8>, src: Seq<TimedSnapshot>)
    ensures
        scan_modes(init, src).1 == if scan_modes(init, src).0.len() > 0 {
            Some(scan_modes(init, src).0.last().1)
        } else {
            init
        },
    decreases src.len(),
{
    if src.len() > 0 {
        lemma_scan_known(init, src.drop_last());
    }
}

/// Scanning two pieces in turn, carrying the known mode across, is scanning
/// the whole.
pub proof fn lemma_scan_concat(init: Option<u8>, a: Seq<TimedSnapshot>, b: Seq<TimedSnapshot>)
    ensures
        scan_modes(init, a + b) == ({
            let (ta, ka) = scan_modes(init, a);
            let (tb, kb) = scan_modes(ka, b);
            (ta + tb, kb)
        }),
    decreases b.len(),
{
    if b.len() == 0 {
        assert(a + b =~= a);
        assert(scan_modes(init, a).0 + Seq::<Transition>::empty() =~= scan_modes(init, a).0);
    } else {
        assert((a + b).drop_last() =~= a + b.drop_last());
        lemma_scan_concat(init, a, b.drop_last());
        let ta = scan_modes(init, a).0;
        let tb = scan_modes(scan_modes(init, a).1, b.drop_last()).0;
        let t = (b.last().0, b.last().1.mode.unwrap_or(0));
        assert((ta + tb).push(t) =~= ta + tb.push(t));
    }
}

/// Every recorded transition comes from a snapshot of `src`, so the list is
/// time-ordered and within the source's time range.
pub proof fn lemma_scan_within(init: Option<u8>, src: Seq<TimedSnapshot>)
    requires
        time_ordered(src),
    ensures
        transitions_sorted(transitions_of(init, src)),
        transitions_of(init, src).len() <= src.len(),
        forall|i: int|
            0 <= i < transitions_of(init, src).len() ==> src[0].0 <= #[trigger] transitions_of(
                init,
                src,
            )[i].0 <= src.last().0,
    decreases src.len(),
{
    if src.len() > 0 {
        let d = src.drop_last();
        lemma_scan_within(init, d);
        if d.len() > 0 {
            assert(d[0].0 == src[0].0);
            assert(d.last().0 <= src.last().0);
        }
    }
}

/// Mode transitions recorded for one chart.
pub struct TransitionTracker {
    transitions: Vec<Transition>,
}

impl View for TransitionTracker {
    type V = Seq<Transition>;

    closed spec fn view(&self) -> Seq<Transition> {
        self.transitions@
    }
}

impl TransitionTracker {
    pub open spec fn wf(&self) -> bool {
        transitions_sorted(self@)
    }

    pub fn new() -> (r: Self)
        ensures
            r.wf(),
            r@ == Seq::<Transition>::empty(),
    {
        TransitionTracker { transitions: Vec::new() }
    }

    /// The recorded transitions, in time order.
    pub fn transitions(&self) -> (r: &Vec<Transition>)
        ensures
            r@ == self@,
    {
        &self.transitions
    }

    /// Forgets every transition; the known mode is unknown again.
    pub fn clear(&mut self)
        ensures
            final(self).wf(),
            final(self)@ == Seq::<Transition>::empty(),
    {
        self.transitions.clear();
    }

    /// Scans `src` from index `keep_first` on: appending, and carrying the
    /// last recorded mode forward, when `keep_first > 0`; starting over
    /// otherwise. The caller vouches that, when appending, no recorded
    /// transition is later than the snapshot before `keep_first`.
    pub fn update(&mut self, src: &[TimedSnapshot], keep_first: usize)
        requires
            old(self).wf(),
            time_ordered(src@),
            keep_first <= src@.len(),
            keep_first > 0 ==> forall|i: int|
                0 <= i < old(self)@.len() ==> #[trigger] old(self)@[i].0 <= src@[keep_first - 1].0,
        ensures
            final(self).wf(),
            final(self)@ == tracker_updated(old(self)@, src@, keep_first as int),
    {
        let ghost base = if keep_first > 0 { self@ } else { Seq::<Transition>::empty() };
        let mut known: Option<u8> = if keep_first > 0 && self.transitions.len() > 0 {
            Some(self.transitions[self.transitions.len() - 1].1)
        } else {
            None
        };
        let ghost start = known;
        if keep_first == 0 {
            self.transitions.clear();
        }
        let mut i: usize = keep_first;
        while i < src.len()
            invariant
                keep_first <= i <= src@.len(),
                (self@, known) == ({
                    let (ts, k) = scan_modes(start, src@.subrange(keep_first as int, i as int));
                    (base + ts, k)
                }),
            decreases src@.len() - i,
        {
            let ghost before = src@.subrange(keep_first as int, i as int);
            let ghost after = src@.subrange(keep_first as int, i + 1);
            assert(after.drop_last() =~= before);
            match src[i].1.mode {
                Some(m) => {
                    if known != Some(m) {
                        let ghost ts = scan_modes(start, before).0;
                        self.transitions.push((src[i].0, m));
                        assert(base + ts.push((src@[i as int].0, m)) =~= (base + ts).push(
                            (src@[i as int].0, m),
                        ));
                        known = Some(m);
                    }
                },
                None => {},
            }
            i += 1;
        }
        proof {
            let rest = src@.subrange(keep_first as int, src@.len() as int);
            let fresh = transitions_of(start, rest);
            lemma_scan_within(start, rest);
            assert(base == old(self)@ || keep_first == 0);
            if keep_first == 0 {
                assert(base + fresh =~= fresh);
            }
            assert forall|a: int, b: int| 0 <= a <= b < self@.len() implies self@[a].0
                <= self@[b].0 by {
                if a < base.len() && b >= base.len() {
                    let k = keep_first as int;
                    assert(src@[k - 1].0 <= src@[k + 0].0);
                    assert(fresh[b - base.len()].0 >= rest[0].0);
                }
            }
        }
    }
}

} // verus!
