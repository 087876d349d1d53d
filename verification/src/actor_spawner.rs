//! The pool of workers that a spawner keeps, and the ids it gives them.
use vstd::prelude::*;

verus! {

/// The workers a spawner started, oldest first. The worker in slot `i` was
/// started with id `i + 1`, so the ids of the pool are always `1..=len`.
pub struct WorkerPool<W> {
    workers: Vec<W>,
}

impl<W> View for WorkerPool<W> {
    type V = Seq<W>;

    closed spec fn view(&self) -> Seq<W> {
        self.workers@
    }
}

/// The id of the worker in slot `slot` of a pool.
pub open spec fn slot_id(slot: int) -> int {
    slot + 1
}

/// The ids `len + 1, ..., len + n` of the next `n` workers of a pool of
/// `len` workers.
pub open spec fn planned_ids(len: int, n: int) -> Seq<u32> {
    Seq::new(n as nat, |j: int| (len + 1 + j) as u32)
}

impl<W> WorkerPool<W> {
    /// An empty pool.
    pub fn new() -> (p: WorkerPool<W>)
        ensures
            p@ == Seq::<W>::empty(),
    {
        WorkerPool { workers: Vec::new() }
    }

    /// The number of workers.
    pub fn len(&self) -> (n: usize)
        ensures
            n == self@.len(),
    {
        self.workers.len()
    }

    /// The ids of the next `n` workers: `len + 1` to `len + n`.
    pub fn ids_to_start(&self, n: u32) -> (ids: Vec<u32>)
        requires
            self@.len() + n <= u32::MAX,
        ensures
            ids@ == planned_ids(self@.len() as int, n as int),
    {
        let len = self.workers.len() as u32;
        let mut ids: Vec<u32> = Vec::new();
        let mut j: u32 = 0;
        while j < n
            invariant
                len == self@.len(),
                len + n <= u32::MAX,
                j <= n,
                ids@ =~= planned_ids(len as int, j as int),
            decreases n - j,
        {
            ids.push(len + j + 1);
            j = j + 1;
        }
        ids
    }

    /// The id of the next worker: `len + 1`.
    pub fn next_id(&self) -> (id: u32)
        requires
            self@.len() < u32::MAX,
        ensures
            id == slot_id(self@.len() as int),
    {
        self.workers.len() as u32 + 1
    }

    /// Adds a started worker at the end of the pool.
    pub fn push(&mut self, worker: W)
        ensures
            final(self)@ == old(self)@.push(worker),
    {
        self.workers.push(worker);
    }

    /// Adds started workers, in order, at the end of the pool.
    pub fn append(&mut self, workers: Vec<W>)
        ensures
            final(self)@ == old(self)@ + workers@,
    {
        let mut more = workers;
        self.workers.append(&mut more);
    }

    /// Removes the most recent worker, if there is one.
    pub fn pop(&mut self) -> (worker: Option<W>)
        ensures
            old(self)@.len() == 0 ==> worker is None && final(self)@ == old(self)@,
            old(self)@.len() > 0 ==> worker == Some(old(self)@.last()) && final(self)@
                == old(self)@.drop_last(),
    {
        self.workers.pop()
    }
}

/// Law: the workers started from `ids_to_start` land in the slots whose id
/// they were given, and the worker that `pop` removes is the one with the
/// highest id, the pool's length.
pub proof fn lemma_ids_follow_slots(len: int, n: int)
    requires
        0 <= len,
        0 <= n,
        len + n <= u32::MAX,
    ensures
        forall|j: int| 0 <= j < n ==> #[trigger] planned_ids(len, n)[j] == slot_id(len + j),
        len > 0 ==> slot_id(len - 1) == len,
{
}

/// Law: a pool of `len` workers gives the next `n` workers the ids
/// `len + 1` to `len + n`, one each, in order, and a single new worker the
/// id `len + 1`: the ids count on from the pool's size.
pub proof fn lemma_ids_count_on(len: int, n: int)
    requires
        0 <= len,
        0 <= n,
        len + n <= u32::MAX,
    ensures
        planned_ids(len, n).len() == n,
        forall|j: int| 0 <= j < n ==> #[trigger] planned_ids(len, n)[j] == len + 1 + j,
        slot_id(len) == len + 1,
{
}

} // verus!
