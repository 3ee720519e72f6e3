//! The default binding: queues kept in a ring buffer, and the scheduler and
//! locks over them.

use std::collections::VecDeque;
use vstd::prelude::*;
use crate::scheduler::head_of;
use crate::scheduler::rest_of;
use crate::scheduler::SchedulerUnit;

verus! {

/// The default choices.
pub struct Unit;

impl SchedulerUnit for Unit {
    type L = Local;

    type Q = Queue;
}

/// What a thread keeps for itself by default: nothing.
pub type Local = Option<()>;

pub type Scheduler = crate::scheduler::Scheduler<<Unit as SchedulerUnit>::Q>;

pub type Mutex = crate::lock::Mutex<<Unit as SchedulerUnit>::Q>;

pub type Condvar = crate::lock::Condvar<<Unit as SchedulerUnit>::Q>;

pub type Monitor = crate::lock::Monitor<<Unit as SchedulerUnit>::Q>;

/// A first-in, first-out queue of nodes with constant-time push and pop.
pub struct Queue {
    list: VecDeque<usize>,
}

impl View for Queue {
    type V = Seq<usize>;

    closed spec fn view(&self) -> Seq<usize> {
        self.list@
    }
}

impl Queue {
    /// Puts `node` before all the others.
    pub fn push_front(&mut self, node: usize)
        ensures
            final(self)@ == seq![node] + old(self)@,
    {
        self.list.push_front(node);
    }

    /// How many nodes the queue holds.
    pub fn len(&self) -> (len: usize)
        ensures
            len == self@.len(),
    {
        self.list.len()
    }

    /// The node at place `index`, counted from the head.
    pub fn get(&self, index: usize) -> (node: Option<usize>)
        ensures
            node == (if index < self@.len() {
                Some(self@[index as int])
            } else {
                None
            }),
    {
        if index < self.list.len() {
            Some(self.list[index])
        } else {
            None
        }
    }
}

impl crate::scheduler::Queue for Queue {
    open spec fn nodes(&self) -> Seq<usize> {
        self@
    }

    fn new() -> (queue: Queue) {
        Queue { list: VecDeque::new() }
    }

    fn push(&mut self, node: usize) {
        self.list.push_back(node);
    }

    fn pop(&mut self) -> (node: Option<usize>) {
        self.list.pop_front()
    }

    fn front(&self) -> (node: Option<usize>) {
        if self.list.len() > 0 {
            Some(self.list[0])
        } else {
            None
        }
    }
}

} // verus!
