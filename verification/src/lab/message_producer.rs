//! How the message producer spreads the chunks of one stream over its
//! subscribers and asks for more or fewer workers.
use vstd::prelude::*;

verus! {

/// What the producer asks of the spawner when a chunk arrives.
#[derive(Debug, Clone, Copy, PartialEq, Eq)]
pub enum Scaling {
    /// Chunks arrive fast and there are few subscribers: add a worker.
    AddWorker,
    /// Chunks arrive slowly and there are many subscribers: remove a worker.
    RemoveWorker,
    /// Neither.
    Steady,
}

/// The decision for one chunk: the scaling request, and the subscriber that
/// receives the chunk's message (none when there are no subscribers).
#[derive(Debug, Clone, Copy)]
pub struct ChunkPlan {
    pub scaling: Scaling,
    pub recipient: Option<usize>,
}

/// Chunks closer than this many nanoseconds count as fast.
pub open spec fn fast_gap_nanos() -> int {
    40_000
}

/// Chunks further apart than this many nanoseconds count as slow.
pub open spec fn slow_gap_nanos() -> int {
    100_000
}

/// The scaling request for a chunk that arrived `elapsed` nanoseconds after
/// the previous one, with `count` subscribers.
pub open spec fn scaling_for(count: int, elapsed: int) -> Scaling {
    if elapsed <= fast_gap_nanos() && count < 10 {
        Scaling::AddWorker
    } else if elapsed > slow_gap_nanos() && count > 5 {
        Scaling::RemoveWorker
    } else {
        Scaling::Steady
    }
}

/// The subscriber that receives a chunk: the current one, or the last one
/// right after a request to remove a worker.
pub open spec fn recipient_for(count: int, index: int, scaling: Scaling) -> Option<int> {
    if count == 0 {
        None
    } else if scaling == Scaling::RemoveWorker {
        Some(count - 1)
    } else {
        Some(index)
    }
}

/// The subscriber that receives the next chunk.
pub open spec fn next_index_for(count: int, index: int, scaling: Scaling) -> int {
    match recipient_for(count, index, scaling) {
        Some(r) => (r + 1) % count,
        None => if scaling == Scaling::RemoveWorker {
            count - 1
        } else {
            index
        },
    }
}

/// The round-robin position of the producer while it reads one stream; the
/// number of subscribers stays fixed while it does.
pub struct Dispatcher {
    subscribers: usize,
    index: usize,
}

/// The mathematical content of a [`Dispatcher`].
pub struct DispatcherView {
    pub subscribers: int,
    pub index: int,
}

impl View for Dispatcher {
    type V = DispatcherView;

    closed spec fn view(&self) -> DispatcherView {
        DispatcherView { subscribers: self.subscribers as int, index: self.index as int }
    }
}

impl Dispatcher {
    #[verifier::type_invariant]
    spec fn index_in_range(self) -> bool {
        if self.subscribers == 0 {
            self.index == 0
        } else {
            self.index < self.subscribers
        }
    }

    /// A dispatcher for the given number of subscribers, starting at the first.
    pub fn new(subscribers: usize) -> (d: Dispatcher)
        ensures
            d@ == (DispatcherView { subscribers: subscribers as int, index: 0 }),
    {
        Dispatcher { subscribers, index: 0 }
    }

    /// The position of the subscriber that receives the next chunk.
    pub fn index(&self) -> (i: usize)
        ensures
            i == self@.index,
            self@.subscribers == 0 ==> i == 0,
            self@.subscribers > 0 ==> i < self@.subscribers,
    {
        proof {
            use_type_invariant(self);
        }
        self.index
    }

    /// Decides what happens to a chunk that arrived `elapsed_nanos`
    /// nanoseconds after the previous one.
    pub fn on_chunk(&mut self, elapsed_nanos: u128) -> (plan: ChunkPlan)
        ensures
            plan.scaling == scaling_for(old(self)@.subscribers, elapsed_nanos as int),
            match recipient_for(old(self)@.subscribers, old(self)@.index, plan.scaling) {
                Some(r) => plan.recipient == Some(r as usize),
                None => plan.recipient is None,
            },
            plan.recipient matches Some(r) ==> r < old(self)@.subscribers,
            final(self)@ == (DispatcherView {
                subscribers: old(self)@.subscribers,
                index: next_index_for(old(self)@.subscribers, old(self)@.index, plan.scaling),
            }),
    {
        proof {
            use_type_invariant(&*self);
        }
        let count = self.subscribers;
        let scaling = if elapsed_nanos <= 40_000 && count < 10 {
            Scaling::AddWorker
        } else if elapsed_nanos > 100_000 && count > 5 {
            Scaling::RemoveWorker
        } else {
            Scaling::Steady
        };
        let mut index = self.index;
        if let Scaling::RemoveWorker = scaling {
            index = count - 1;
        }
        let recipient = if count > 0 {
            let r = index;
            index = (index + 1) % count;
            Some(r)
        } else {
            None
        };
        self.index = index;
        ChunkPlan { scaling, recipient }
    }
}

/// Law: every chunk goes to an existing subscriber, and a dispatcher that
/// does not shrink serves its subscribers in turn.
pub proof fn lemma_round_robin(count: int, index: int, elapsed: int)
    requires
        count > 0,
        0 <= index < count,
    ensures
        recipient_for(count, index, scaling_for(count, elapsed)) matches Some(r) && 0 <= r < count,
        0 <= next_index_for(count, index, scaling_for(count, elapsed)) < count,
        scaling_for(count, elapsed) != Scaling::RemoveWorker ==> next_index_for(
            count,
            index,
            scaling_for(count, elapsed),
        ) == (index + 1) % count,
{
}

/// Law: the producer asks for one more worker exactly when a chunk came at
/// most 40 microseconds after the previous one and there are fewer than ten
/// subscribers, and for one worker fewer exactly when it came more than 100
/// microseconds after and there are more than five, however many there are.
pub proof fn lemma_scaling_rules(count: int, elapsed: int)
    ensures
        (scaling_for(count, elapsed) == Scaling::AddWorker) <==> (elapsed <= 40_000 && count < 10),
        (scaling_for(count, elapsed) == Scaling::RemoveWorker) <==> (elapsed > 100_000 && count
            > 5),
        (scaling_for(count, elapsed) == Scaling::Steady) <==> !(elapsed <= 40_000 && count < 10)
            && !(elapsed > 100_000 && count > 5),
{
}

/// Law: with subscribers, a chunk goes to the last subscriber when a worker
/// is to be removed and to the current one otherwise, and the next chunk goes
/// to the one after it, wrapping around; with none it goes nowhere and the
/// position stays.
pub proof fn lemma_recipient_rules(count: int, index: int, elapsed: int)
    requires
        count == 0 ==> index == 0,
        count > 0 ==> 0 <= index < count,
    ensures
        count == 0 ==> recipient_for(count, index, scaling_for(count, elapsed)) is None
            && next_index_for(count, index, scaling_for(count, elapsed)) == 0,
        count > 0 ==> recipient_for(count, index, scaling_for(count, elapsed)) == Some(
            if elapsed > 100_000 && count > 5 {
                count - 1
            } else {
                index
            },
        ),
        count > 0 ==> next_index_for(count, index, scaling_for(count, elapsed)) == if elapsed
            > 100_000 && count > 5 {
            0
        } else {
            (index + 1) % count
        },
{
    if count > 0 && elapsed > 100_000 && count > 5 {
        assert((count - 1 + 1) % count == 0) by {
            vstd::arithmetic::div_mod::lemma_mod_self_0(count);
        }
    }
}

} // verus!
