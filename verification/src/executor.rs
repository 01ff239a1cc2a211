//! The run queue of the cooperative executor: tasks are polled in the order in
//! which they became ready, and a task is in the queue only while it waits to
//! be polled.

use std::collections::VecDeque;
use vstd::prelude::*;

verus! {

/// Ready queue of tasks of type `T`.
pub struct Executor<T> {
    ready: VecDeque<T>,
}

impl<T> Executor<T> {
    /// Tasks waiting to be polled, the next one first.
    pub closed spec fn queue(&self) -> Seq<T> {
        self.ready@
    }

    /// An executor with nothing to run.
    pub fn new() -> (e: Executor<T>)
        ensures
            e.queue() == Seq::<T>::empty(),
    {
        Executor { ready: VecDeque::new() }
    }

    /// Adds a new task; it is polled after every task already ready.
    pub fn spawn(&mut self, task: T)
        ensures
            final(self).queue() == old(self).queue().push(task),
    {
        self.ready.push_back(task);
    }

    /// Puts a woken task back at the end of the ready queue.
    pub fn wake_task(&mut self, task: T)
        ensures
            final(self).queue() == old(self).queue().push(task),
    {
        self.ready.push_back(task);
    }

    /// Removes and returns the task to poll next: the one that became ready
    /// first.
    pub fn next_ready(&mut self) -> (t: Option<T>)
        ensures
            old(self).queue().len() == 0 ==> t is None && final(self).queue() == old(self).queue(),
            old(self).queue().len() > 0 ==> t == Some(old(self).queue()[0]) && final(self).queue()
                == old(self).queue().drop_first(),
    {
        let t = self.ready.pop_front();
        proof {
            if old(self).queue().len() > 0 {
                assert(self.ready@ =~= old(self).queue().drop_first());
            }
        }
        t
    }

    /// Nothing is ready: the core may wait for an interrupt.
    pub fn is_idle(&self) -> (b: bool)
        ensures
            b == (self.queue().len() == 0),
    {
        self.ready.len() == 0
    }
}

} // verus!
