//! One metric source together with its bounded history of samples.

use std::collections::VecDeque;
use vstd::prelude::*;

verus! {

/// Most samples an entry keeps; older ones are dropped first.
pub const VALUE_HISTORY_SIZE: usize = 512;

/// Rows an entry takes on screen when collapsed.
pub const COLLAPSED_HEIGHT: usize = 3;

/// Rows an entry takes on screen when expanded.
pub const EXPANDED_HEIGHT: usize = 6;

/// The last `VALUE_HISTORY_SIZE` items of `s`, in order.
pub open spec fn most_recent<A>(s: Seq<A>) -> Seq<A> {
    if s.len() > VALUE_HISTORY_SIZE {
        s.subrange(s.len() - VALUE_HISTORY_SIZE, s.len() as int)
    } else {
        s
    }
}

/// The history after one more sample.
pub open spec fn recorded<A>(history: Seq<A>, sample: A) -> Seq<A> {
    most_recent(history.push(sample))
}

/// The history after recording each of `samples` in turn.
pub open spec fn recorded_all<A>(history: Seq<A>, samples: Seq<A>) -> Seq<A>
    decreases samples.len(),
{
    if samples.len() == 0 {
        history
    } else {
        recorded(recorded_all(history, samples.drop_last()), samples.last())
    }
}

/// Display height of an entry.
pub open spec fn height_of(expanded: bool) -> usize {
    if expanded {
        EXPANDED_HEIGHT
    } else {
        COLLAPSED_HEIGHT
    }
}

/// A metric source `stream` with the samples taken from it, oldest first.
/// `S` is the source itself, `T` a sample.
pub struct StreamWrapper<S, T> {
    pub stream: S,
    pub values: VecDeque<Option<T>>,
    pub active: bool,
    pub expanded: bool,
}

impl<S, T> StreamWrapper<S, T> {
    /// The history never holds more than `VALUE_HISTORY_SIZE` samples.
    pub open spec fn wf(&self) -> bool {
        self.values@.len() <= VALUE_HISTORY_SIZE
    }

    pub open spec fn spec_height(&self) -> usize {
        height_of(self.expanded)
    }

    /// A fresh entry: active, collapsed, with no samples yet.
    pub fn new(stream: S) -> (r: Self)
        ensures
            r.stream == stream,
            r.values@.len() == 0,
            r.active,
            !r.expanded,
            r.wf(),
    {
        StreamWrapper { stream, values: VecDeque::new(), active: true, expanded: false }
    }

    /// Rows the entry takes on screen.
    pub fn height(&self) -> (h: usize)
        ensures
            h == self.spec_height(),
            h >= 1,
    {
        if self.expanded {
            EXPANDED_HEIGHT
        } else {
            COLLAPSED_HEIGHT
        }
    }

    /// Appends a sample (possibly absent), dropping the oldest one when the
    /// history would exceed its capacity.
    pub fn record(&mut self, value: Option<T>)
        requires
            old(self).wf(),
        ensures
            final(self).wf(),
            final(self).values@ == recorded(old(self).values@, value),
            final(self).stream == old(self).stream,
            final(self).active == old(self).active,
            final(self).expanded == old(self).expanded,
    {
        let ghost before = self.values@.push(value);
        self.values.push_back(value);
        if self.values.len() > VALUE_HISTORY_SIZE {
            self.values.pop_front();
            assert(self.values@ =~= most_recent(before));
        }
    }

    /// Forgets every sample.
    pub fn clear(&mut self)
        ensures
            final(self).wf(),
            final(self).values@.len() == 0,
            final(self).stream == old(self).stream,
            final(self).active == old(self).active,
            final(self).expanded == old(self).expanded,
    {
        self.values.clear();
    }
}

/// Recording any number of samples into a history that holds at most
/// `VALUE_HISTORY_SIZE` of them keeps exactly the most recent
/// `VALUE_HISTORY_SIZE` of all samples seen, in the order they came; so the
/// history never grows beyond its capacity.
pub proof fn lemma_history_keeps_most_recent<A>(history: Seq<A>, samples: Seq<A>)
    requires
        history.len() <= VALUE_HISTORY_SIZE,
    ensures
        recorded_all(history, samples) == most_recent(history + samples),
        recorded_all(history, samples).len() <= VALUE_HISTORY_SIZE,
    decreases samples.len(),
{
    if samples.len() > 0 {
        let init = samples.drop_last();
        lemma_history_keeps_most_recent(history, init);
        let prev = most_recent(history + init);
        assert(history + samples =~= (history + init).push(samples.last()));
        assert(most_recent(prev.push(samples.last())) =~= most_recent((history + init).push(samples.last())));
    } else {
        assert(history + samples =~= history);
    }
}

} // verus!
