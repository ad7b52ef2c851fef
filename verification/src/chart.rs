//! The samples that the bandwidth chart draws.

use std::collections::VecDeque;

use vstd::prelude::*;

use crate::data::HISTORY_LEN;
use crate::history::newest;

verus! {

/// The newest samples of a curve, oldest first, at most as many as the chart shows.
pub struct Samples<T> {
    pub values: VecDeque<T>,
}

/// The samples after one more.
pub open spec fn sampled<T>(samples: Seq<T>, value: T) -> Seq<T> {
    newest(samples.push(value), HISTORY_LEN as int)
}

impl<T> Samples<T> {
    /// Whether there are no more samples than the chart shows.
    pub open spec fn wf(self) -> bool {
        self.values@.len() <= HISTORY_LEN
    }

    /// No samples.
    pub fn new() -> (samples: Self)
        ensures
            samples.values@ == Seq::<T>::empty(),
            samples.wf(),
    {
        Samples { values: VecDeque::new() }
    }

    /// Adds a sample, and forgets the oldest ones that the chart does not show any more.
    pub fn push(&mut self, value: T)
        ensures
            final(self).values@ == sampled(old(self).values@, value),
            final(self).wf(),
    {
        self.values.push_back(value);
        let ghost all = self.values@;
        assert(all =~= old(self).values@.push(value));
        assert(all.skip(0) =~= all);
        while self.values.len() > HISTORY_LEN
            invariant
                self.values@.len() <= all.len(),
                self.values@ == all.skip(all.len() - self.values@.len()),
                all.len() >= HISTORY_LEN ==> self.values@.len() >= HISTORY_LEN,
                all.len() < HISTORY_LEN ==> self.values@ == all,
            decreases self.values@.len(),
        {
            let ghost before = self.values@;
            self.values.pop_front();
            assert(self.values@ =~= all.skip(all.len() - self.values@.len()));
        }
        assert(self.values@ =~= newest(all, HISTORY_LEN as int));
    }
}

/// The newest sample is the last one, the older ones stay in their order, and none is
/// forgotten while there are no more than sixty.
pub proof fn lemma_newest_samples_are_shown<T>(samples: Seq<T>, value: T, i: int)
    requires
        samples.len() <= 60,
    ensures
        sampled(samples, value).last() == value,
        samples.len() < 60 ==> sampled(samples, value).len() == samples.len() + 1,
        samples.len() == 60 ==> sampled(samples, value).len() == 60,
        0 <= i < sampled(samples, value).len() - 1 ==> sampled(samples, value)[sampled(
            samples,
            value,
        ).len() - 2 - i] == samples[samples.len() - 1 - i],
{
}

} // verus!
