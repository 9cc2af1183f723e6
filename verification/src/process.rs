//! Circular process queue for a single warrior.
use std::collections::VecDeque;

use vstd::prelude::*;

verus! {

broadcast use vstd::std_specs::vecdeque::group_vec_dequeue_axioms;

/// Circular process queue for a single warrior: program counters in the order
/// in which they run.
#[derive(Debug)]
pub struct ProcessQueue {
    queue: VecDeque<usize>,
}

impl ProcessQueue {
    /// The queued program counters, the next to run first.
    pub closed spec fn pcs(&self) -> Seq<usize> {
        self.queue@
    }

    pub fn new() -> (q: Self)
        ensures
            q.pcs() == Seq::<usize>::empty(),
    {
        Self { queue: VecDeque::new() }
    }

    pub fn push(&mut self, pc: usize)
        ensures
            final(self).pcs() == old(self).pcs().push(pc),
    {
        self.queue.push_back(pc);
    }

    pub fn pop(&mut self) -> (r: Option<usize>)
        ensures
            old(self).pcs().len() == 0 ==> r is None && final(self).pcs() == old(self).pcs(),
            old(self).pcs().len() > 0 ==> r == Some(old(self).pcs()[0]) && final(self).pcs()
                == old(self).pcs().drop_first(),
    {
        self.queue.pop_front()
    }

    pub fn len(&self) -> (n: usize)
        ensures
            n == self.pcs().len(),
    {
        self.queue.len()
    }

    pub fn is_empty(&self) -> (b: bool)
        ensures
            b == (self.pcs().len() == 0),
    {
        self.queue.len() == 0
    }

    pub fn is_full(&self, max_processes: usize) -> (b: bool)
        ensures
            b == (self.pcs().len() >= max_processes),
    {
        self.len() >= max_processes
    }
}

impl Default for ProcessQueue {
    fn default() -> (q: Self)
        ensures
            q.pcs() == Seq::<usize>::empty(),
    {
        Self::new()
    }
}

impl Clone for ProcessQueue {
    fn clone(&self) -> (q: Self)
        ensures
            q.pcs() == self.pcs(),
    {
        let mut queue: VecDeque<usize> = VecDeque::new();
        let mut i: usize = 0;
        while i < self.queue.len()
            invariant
                i <= self.queue@.len(),
                queue@ == self.queue@.take(i as int),
            decreases self.queue@.len() - i,
        {
            queue.push_back(self.queue[i]);
            i = i + 1;
            assert(queue@ =~= self.queue@.take(i as int));
        }
        assert(self.queue@.take(self.queue@.len() as int) =~= self.queue@);
        Self { queue }
    }
}

/// The queue is first in, first out: after pushing `a` and then `b` onto
/// an empty queue, `a` comes out first and `b` second.
pub proof fn lemma_queue_fifo(
    q0: ProcessQueue,
    q1: ProcessQueue,
    q2: ProcessQueue,
    a: usize,
    b: usize,
)
    requires
        q0.pcs() == Seq::<usize>::empty(),
        q1.pcs() == q0.pcs().push(a),
        q2.pcs() == q1.pcs().push(b),
    ensures
        q2.pcs().len() == 2,
        q2.pcs()[0] == a,
        q2.pcs().drop_first()[0] == b,
        q2.pcs().drop_first().drop_first().len() == 0,
{
}

} // verus!
