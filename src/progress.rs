use vstd::prelude::*;

verus! {

/// How many of `flags` are set.
pub open spec fn count_set(flags: Seq<bool>) -> nat
    decreases flags.len(),
{
    if flags.len() == 0 {
        0
    } else {
        count_set(flags.drop_last()) + (if flags.last() { 1nat } else { 0nat })
    }
}

proof fn lemma_count_set_bound(flags: Seq<bool>)
    ensures
        count_set(flags) <= flags.len(),
    decreases flags.len(),
{
    if flags.len() > 0 {
        lemma_count_set_bound(flags.drop_last());
    }
}

proof fn lemma_count_set_update(flags: Seq<bool>, i: int)
    requires
        0 <= i < flags.len(),
        !flags[i],
    ensures
        count_set(flags.update(i, true)) == count_set(flags) + 1,
    decreases flags.len(),
{
    let g = flags.update(i, true);
    if i < flags.len() - 1 {
        assert(g.drop_last() =~= flags.drop_last().update(i, true));
        lemma_count_set_update(flags.drop_last(), i);
    } else {
        assert(g.drop_last() =~= flags.drop_last());
    }
}

/// Per-channel counts of messages delivered, and which channels are complete.
pub struct Progress {
    counts: Vec<u64>,
    complete: Vec<bool>,
    completed: usize,
}

impl Progress {
    pub closed spec fn counts(&self) -> Seq<u64> {
        self.counts@
    }

    pub closed spec fn completed_flags(&self) -> Seq<bool> {
        self.complete@
    }

    pub open spec fn wf(&self) -> bool {
        self.counts().len() == self.completed_flags().len() && self.inner_wf()
    }

    /// The completed counter agrees with the flags.
    pub closed spec fn inner_wf(&self) -> bool {
        self.completed as nat == count_set(self.complete@)
    }

    /// Counters for `channels` channels, all at zero.
    pub fn new(channels: usize) -> (r: Self)
        ensures
            r.wf(),
            r.counts() == Seq::new(channels as nat, |i: int| 0u64),
            r.completed_flags() == Seq::new(channels as nat, |i: int| false),
    {
        let mut counts: Vec<u64> = Vec::new();
        let mut complete: Vec<bool> = Vec::new();
        let mut i: usize = 0;
        while i < channels
            invariant
                i <= channels,
                counts@ == Seq::new(i as nat, |j: int| 0u64),
                complete@ == Seq::new(i as nat, |j: int| false),
                count_set(complete@) == 0,
            decreases channels - i,
        {
            counts.push(0);
            complete.push(false);
            assert(counts@ =~= Seq::new((i + 1) as nat, |j: int| 0u64));
            assert(complete@ =~= Seq::new((i + 1) as nat, |j: int| false));
            assert(complete@.drop_last() =~= Seq::new(i as nat, |j: int| false));
            i = i + 1;
        }
        Progress { counts, complete, completed: 0 }
    }

    /// `n` more messages of `channel` were delivered; the counter stops at its maximum.
    pub fn increment(&mut self, channel: usize, n: u64)
        requires
            old(self).wf(),
            channel < old(self).counts().len(),
        ensures
            final(self).wf(),
            final(self).completed_flags() == old(self).completed_flags(),
            final(self).counts() == old(self).counts().update(
                channel as int,
                if old(self).counts()[channel as int] + n > u64::MAX {
                    u64::MAX
                } else {
                    (old(self).counts()[channel as int] + n) as u64
                },
            ),
    {
        let v = self.counts[channel].saturating_add(n);
        self.counts.set(channel, v);
    }

    /// Marks `channel` complete. Returns whether this call did it: a channel is
    /// completed once, and later calls change nothing.
    pub fn complete(&mut self, channel: usize) -> (newly: bool)
        requires
            old(self).wf(),
            channel < old(self).counts().len(),
        ensures
            final(self).wf(),
            final(self).counts() == old(self).counts(),
            newly == !old(self).completed_flags()[channel as int],
            final(self).completed_flags() == old(self).completed_flags().update(channel as int, true),
    {
        if self.complete[channel] {
            assert(self.complete@.update(channel as int, true) =~= self.complete@);
            return false;
        }
        let total = self.complete.len();
        proof {
            lemma_count_set_update(self.complete@, channel as int);
            lemma_count_set_bound(self.complete@.update(channel as int, true));
        }
        self.complete.set(channel, true);
        assert(self.completed + 1 <= total);
        self.completed = self.completed + 1;
        true
    }

    /// The messages of `channel` delivered so far.
    pub fn count(&self, channel: usize) -> (r: u64)
        requires
            channel < self.counts().len(),
        ensures
            r == self.counts()[channel as int],
    {
        self.counts[channel]
    }

    /// How many channels are complete.
    pub fn channels_completed(&self) -> (r: usize)
        requires
            self.wf(),
        ensures
            r == count_set(self.completed_flags()),
    {
        self.completed
    }

    /// Whether every channel is complete.
    pub fn all_done(&self) -> (r: bool)
        requires
            self.wf(),
        ensures
            r == (count_set(self.completed_flags()) == self.completed_flags().len()),
    {
        self.completed == self.complete.len()
    }
}

} // verus!
