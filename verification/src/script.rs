//! Threads whose requests are known beforehand.

use std::collections::VecDeque;
use vstd::prelude::*;
use crate::arch::Slot;
use crate::scheduler::Parker;
use crate::scheduler::Request;
use crate::scheduler::Response;
use crate::scheduler::Threads;

verus! {

/// A list of requests that stands for the threads. Each resumption, of
/// whichever thread is at the head of the run queue, makes the next request
/// of the list; a `None` in the list, or the end of the list, is a thread
/// whose entry returns. Such threads leave the slot and the world alone.
pub struct Script<P> {
    /// The requests still to be made, the next one first.
    pub asks: VecDeque<Option<Request<P>>>,
    /// The nodes resumed so far.
    pub resumed: Vec<usize>,
    /// The nodes whose entry returned.
    pub returned: Vec<usize>,
    /// The nodes whose stacks were released.
    pub released: Vec<usize>,
}

/// The request that a list makes next.
pub open spec fn next_ask<P>(asks: Seq<Option<Request<P>>>) -> Option<Request<P>> {
    if asks.len() > 0 {
        asks[0]
    } else {
        None
    }
}

/// A list after its next request has been made.
pub open spec fn later_asks<P>(asks: Seq<Option<Request<P>>>) -> Seq<Option<Request<P>>> {
    if asks.len() > 0 {
        asks.skip(1)
    } else {
        asks
    }
}

impl<P> Script<P> {
    /// Threads that make no request: each returns when it is first resumed.
    pub fn new() -> (script: Script<P>)
        ensures
            script.asks@ == Seq::<Option<Request<P>>>::empty(),
            script.resumed@ == Seq::<usize>::empty(),
            script.returned@ == Seq::<usize>::empty(),
            script.released@ == Seq::<usize>::empty(),
    {
        Script {
            asks: VecDeque::new(),
            resumed: Vec::new(),
            returned: Vec::new(),
            released: Vec::new(),
        }
    }

    /// Puts one more request at the end of the list.
    pub fn ask(&mut self, request: Option<Request<P>>)
        ensures
            final(self).asks@ == old(self).asks@.push(request),
            final(self).resumed@ == old(self).resumed@,
            final(self).returned@ == old(self).returned@,
            final(self).released@ == old(self).released@,
    {
        self.asks.push_back(request);
    }
}

impl<W, P: Parker<W>> Threads<W, P> for Script<P> {
    open spec fn resumed(&self) -> Seq<usize> {
        self.resumed@
    }

    open spec fn returned(&self) -> Seq<usize> {
        self.returned@
    }

    open spec fn released(&self) -> Seq<usize> {
        self.released@
    }

    open spec fn resumes(
        &self,
        node: usize,
        response: Response,
        world: W,
        after: Self,
        world_after: W,
        asked: Option<Request<P>>,
    ) -> bool {
        &&& world_after == world
        &&& asked == next_ask(self.asks@)
        &&& after.asks@ =~= later_asks(self.asks@)
    }

    fn resume(&mut self, slot: &mut Slot, response: Response, world: &mut W) -> (asked: Option<
        Request<P>,
    >) {
        let node: usize = crate::arch::get(slot);
        self.resumed.push(node);
        let asked: Option<Request<P>> = match self.asks.pop_front() {
            Some(asked) => asked,
            None => None,
        };
        if asked.is_none() {
            self.returned.push(node);
        }
        asked
    }

    fn release(&mut self, node: usize) {
        self.released.push(node);
    }
}

} // verus!
