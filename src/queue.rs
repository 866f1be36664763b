//! The pending-work queue shared by a pool's workers.
//!
//! The queue holds its items in first-in, first-out order and carries the
//! pool's open/closed state. Locking and waking of threads are done by the
//! caller around these operations; every decision about what a push or a pop
//! does is made here.
use vstd::prelude::*;

verus! {

/// A worker found the queue closed and empty: its thread should end.
#[derive(Debug, Clone, Copy, PartialEq, Eq, Structural)]
pub struct ThreadExit {}

impl ThreadExit {
    /// A short description of the signal.
    pub fn description(&self) -> (r: &'static str)
        ensures
            r@ == "ThreadExit"@,
    {
        "ThreadExit"
    }
}

/// An item was offered to a queue that has been closed.
#[derive(Debug, Clone, PartialEq, Eq)]
pub struct PoolClosed<T> {
    /// The item that was refused, handed back to the caller.
    pub item: T,
}

/// First-in, first-out queue of pending items with an open/closed flag.
pub struct Queue<T> {
    items: std::collections::VecDeque<T>,
    closed: bool,
}

impl<T> Queue<T> {
    /// The items waiting, oldest first.
    pub closed spec fn pending(&self) -> Seq<T> {
        self.items@
    }

    /// Whether the queue refuses new items.
    pub closed spec fn is_closed(&self) -> bool {
        self.closed
    }

    /// An open, empty queue.
    pub fn new() -> (r: Self)
        ensures
            r.pending() == Seq::<T>::empty(),
            !r.is_closed(),
    {
        Queue { items: std::collections::VecDeque::new(), closed: false }
    }

    /// Number of items waiting.
    pub fn len(&self) -> (r: usize)
        ensures
            r == self.pending().len(),
    {
        self.items.len()
    }

    /// Whether no item is waiting.
    pub fn is_empty(&self) -> (r: bool)
        ensures
            r == (self.pending().len() == 0),
    {
        self.items.len() == 0
    }

    /// Whether the queue has been closed.
    pub fn closed(&self) -> (r: bool)
        ensures
            r == self.is_closed(),
    {
        self.closed
    }

    /// Appends `data` at the tail. A closed queue refuses it and hands it back.
    pub fn push(&mut self, data: T) -> (r: Result<(), PoolClosed<T>>)
        ensures
            final(self).is_closed() == old(self).is_closed(),
            old(self).is_closed() ==> r == Err::<(), PoolClosed<T>>(PoolClosed { item: data })
                && final(self).pending() == old(self).pending(),
            !old(self).is_closed() ==> r is Ok && final(self).pending() == old(
                self,
            ).pending().push(data),
    {
        if self.closed {
            Err(PoolClosed { item: data })
        } else {
            self.items.push_back(data);
            Ok(())
        }
    }

    /// Removes and returns the oldest item, or `None` when nothing is waiting.
    pub fn pop(&mut self) -> (r: Option<T>)
        ensures
            final(self).is_closed() == old(self).is_closed(),
            old(self).pending().len() == 0 ==> r is None && final(self).pending() == old(
                self,
            ).pending(),
            old(self).pending().len() > 0 ==> r == Some(old(self).pending()[0])
                && final(self).pending() == old(self).pending().drop_first(),
    {
        self.items.pop_front()
    }

    /// What a worker does next: `Ok(Some(item))` runs the oldest item,
    /// `Ok(None)` waits for a push, and `Err(ThreadExit)` ends the worker,
    /// which happens only once the queue is closed and has no item left.
    pub fn pop_for_worker(&mut self) -> (r: Result<Option<T>, ThreadExit>)
        ensures
            final(self).is_closed() == old(self).is_closed(),
            old(self).pending().len() > 0 ==> r == Ok::<Option<T>, ThreadExit>(
                Some(old(self).pending()[0]),
            ) && final(self).pending() == old(self).pending().drop_first(),
            old(self).pending().len() == 0 ==> final(self).pending() == old(self).pending() && (
            if old(self).is_closed() {
                r == Err::<Option<T>, ThreadExit>(ThreadExit {  })
            } else {
                r == Ok::<Option<T>, ThreadExit>(None)
            }),
    {
        match self.items.pop_front() {
            Some(item) => Ok(Some(item)),
            None => {
                if self.closed {
                    Err(ThreadExit {  })
                } else {
                    Ok(None)
                }
            },
        }
    }

    /// Closes the queue. With `drain` the waiting items stay to be run;
    /// without it they are dropped. Returns how many were dropped. Closing
    /// a closed queue again changes nothing but may drop what is left.
    pub fn close(&mut self, drain: bool) -> (r: usize)
        ensures
            final(self).is_closed(),
            drain ==> r == 0 && final(self).pending() == old(self).pending(),
            !drain ==> r == old(self).pending().len() && final(self).pending() == Seq::<
                T,
            >::empty(),
    {
        self.closed = true;
        if drain {
            0
        } else {
            let n = self.items.len();
            self.items.clear();
            n
        }
    }
}

/// The items pushed by a run of queue operations, in the order pushed.
/// `Some(x)` stands for a push of `x`, `None` for a pop.
pub open spec fn pushed_by<T>(ops: Seq<Option<T>>) -> Seq<T>
    decreases ops.len(),
{
    if ops.len() == 0 {
        Seq::empty()
    } else {
        let before = pushed_by(ops.drop_last());
        match ops.last() {
            Some(x) => before.push(x),
            None => before,
        }
    }
}

/// The waiting items and the items popped, in the order popped, after a run
/// of operations on an open queue that starts with `start` waiting. Each push
/// and each pop acts as `Queue::push` and `Queue::pop` do.
pub open spec fn run_ops<T>(start: Seq<T>, ops: Seq<Option<T>>) -> (Seq<T>, Seq<T>)
    decreases ops.len(),
{
    if ops.len() == 0 {
        (start, Seq::empty())
    } else {
        let (waiting, popped) = run_ops(start, ops.drop_last());
        match ops.last() {
            Some(x) => (waiting.push(x), popped),
            None => if waiting.len() > 0 {
                (waiting.drop_first(), popped.push(waiting[0]))
            } else {
                (waiting, popped)
            },
        }
    }
}

/// No item is lost and none is handed out twice: under any interleaving of
/// pushes and pops, what was popped followed by what still waits is exactly
/// what was waiting at the start followed by what was pushed, in order.
pub proof fn lemma_queue_conserves_items<T>(start: Seq<T>, ops: Seq<Option<T>>)
    ensures
        run_ops(start, ops).1 + run_ops(start, ops).0 == start + pushed_by(ops),
    decreases ops.len(),
{
    if ops.len() > 0 {
        lemma_queue_conserves_items(start, ops.drop_last());
        let (waiting, popped) = run_ops(start, ops.drop_last());
        match ops.last() {
            Some(x) => {
                assert(popped + waiting.push(x) =~= (popped + waiting).push(x));
            },
            None => {
                if waiting.len() > 0 {
                    assert(popped.push(waiting[0]) + waiting.drop_first() =~= popped + waiting);
                }
            },
        }
    }
}

} // verus!
