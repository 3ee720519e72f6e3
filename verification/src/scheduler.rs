//! The run queue and the request protocol between threads and the scheduler.

use vstd::prelude::*;
use crate::arch::Slot;

verus! {

/// The first node of a queue, if it has one.
pub open spec fn head_of(nodes: Seq<usize>) -> Option<usize> {
    if nodes.len() > 0 {
        Some(nodes[0])
    } else {
        None
    }
}

/// A queue without its first node; an empty queue stays empty.
pub open spec fn rest_of(nodes: Seq<usize>) -> Seq<usize> {
    if nodes.len() > 0 {
        nodes.skip(1)
    } else {
        nodes
    }
}

/// A queue whose first node has gone behind all the others.
pub open spec fn rotated(nodes: Seq<usize>) -> Seq<usize> {
    if nodes.len() > 0 {
        nodes.skip(1).push(nodes[0])
    } else {
        nodes
    }
}

/// A queue with `woken`, if there is one, put behind all the others.
pub open spec fn with_woken(nodes: Seq<usize>, woken: Option<usize>) -> Seq<usize> {
    match woken {
        Some(node) => nodes.push(node),
        None => nodes,
    }
}

/// A first-in, first-out container of nodes. A node is the word that names
/// its thread. None of the methods may allocate per call beyond the
/// container's own growth.
pub trait Queue: Sized {
    /// The nodes held, oldest first.
    spec fn nodes(&self) -> Seq<usize>;

    /// An empty queue.
    fn new() -> (queue: Self)
        ensures
            queue.nodes() == Seq::<usize>::empty(),
    ;

    /// Puts `node` behind all the others.
    fn push(&mut self, node: usize)
        ensures
            final(self).nodes() == old(self).nodes().push(node),
    ;

    /// Takes the oldest node out, if there is one.
    fn pop(&mut self) -> (node: Option<usize>)
        ensures
            node == head_of(old(self).nodes()),
            final(self).nodes() == rest_of(old(self).nodes()),
    ;

    /// The oldest node, if there is one.
    fn front(&self) -> (node: Option<usize>)
        ensures
            node == head_of(self.nodes()),
    ;
}

/// The choices that make one scheduler out of the generic parts.
pub trait SchedulerUnit {
    /// What each thread keeps for itself.
    type L;

    /// The container of runnable and of waiting threads.
    type Q: Queue;
}

/// A one-shot function that stores a node which has just left the run queue.
/// `W` is the state it stores the node in. The scheduler calls it after the
/// node's thread has suspended and before any other thread is resumed.
pub trait Parker<W>: Sized {
    /// How `park` changes the state, and which node it sets free to run
    /// again, if any. A parker that says nothing of itself leaves this open.
    open spec fn parks(&self, node: usize, before: W, after: W, woken: Option<usize>) -> bool {
        true
    }

    /// Stores `node` and hands back the node that this set free, if any.
    fn park(self, node: usize, world: &mut W) -> (woken: Option<usize>)
        ensures
            self.parks(node, *old(world), *final(world), woken),
    ;
}

/// What a thread asks of the scheduler when it suspends.
#[derive(Debug)]
pub enum Request<P> {
    /// Let every other runnable thread go first.
    Yield,
    /// Make this node runnable; the asking thread stays runnable too.
    Schedule(usize),
    /// Take the asking thread off the run queue; with a parker, hand its
    /// node to the parker, without one, hand it back in the response.
    Unschedule(Option<P>),
}

impl<P> Request<P> {
    /// The request that takes the asking thread off the run queue and hands
    /// its node to `parker`.
    pub fn make_schedule(parker: P) -> (request: Request<P>)
        ensures
            request == Request::Unschedule(Some(parker)),
    {
        Request::Unschedule(Some(parker))
    }
}

/// What the scheduler tells the thread that it resumes next.
#[derive(PartialEq, Eq, Structural, Clone, Copy, Debug)]
pub enum Response {
    Nothing,
    Unscheduled(Option<usize>),
}

/// The run queue after the thread at its head has made `request`, where
/// `woken` is what the request's parker set free. A thread whose entry
/// returned counts as having asked to be unscheduled without a parker.
pub open spec fn queue_after<P>(
    nodes: Seq<usize>,
    request: Option<Request<P>>,
    woken: Option<usize>,
) -> Seq<usize> {
    match request {
        Some(Request::Yield) => rotated(nodes),
        Some(Request::Schedule(node)) => nodes.push(node),
        Some(Request::Unschedule(Some(_))) => with_woken(rest_of(nodes), woken),
        Some(Request::Unschedule(None)) | None => rest_of(nodes),
    }
}

/// The response that follows `request`.
pub open spec fn response_to<P>(nodes: Seq<usize>, request: Option<Request<P>>) -> Response {
    match request {
        Some(Request::Yield) | Some(Request::Schedule(_)) => Response::Nothing,
        Some(Request::Unschedule(Some(_))) => Response::Unscheduled(None),
        Some(Request::Unschedule(None)) | None => Response::Unscheduled(Some(nodes[0])),
    }
}

/// Whether `request` hands the asking thread's node to a parker.
pub open spec fn has_parker<P>(request: Option<Request<P>>) -> bool {
    request matches Some(Request::Unschedule(Some(_)))
}

/// The parker that `request` carries.
pub open spec fn parker_of<P>(request: Option<Request<P>>) -> P
    recommends
        has_parker(request),
{
    match request {
        Some(Request::Unschedule(Some(parker))) => parker,
        _ => arbitrary(),
    }
}

/// The code that runs inside the threads, as the scheduler sees it. It keeps
/// three logs, by which the scheduler's contracts say what was done to the
/// threads; an implementation that is to be verified states them.
pub trait Threads<W, P: Parker<W>>: Sized {
    /// The nodes of the threads that were resumed, in the order of the
    /// resumptions.
    open spec fn resumed(&self) -> Seq<usize> {
        Seq::empty()
    }

    /// The nodes of the threads whose entry has returned, in that order.
    open spec fn returned(&self) -> Seq<usize> {
        Seq::empty()
    }

    /// The nodes whose stacks were released, in that order.
    open spec fn released(&self) -> Seq<usize> {
        Seq::empty()
    }

    /// What the thread `node` does when it is resumed with `response`: how
    /// it leaves the threads and the world, and what it asks. Threads that
    /// say nothing of themselves leave this open.
    open spec fn resumes(
        &self,
        node: usize,
        response: Response,
        world: W,
        after: Self,
        world_after: W,
        asked: Option<Request<P>>,
    ) -> bool {
        true
    }

    /// Switches to the thread that `slot` names, hands it `response`, and
    /// comes back with what the thread asks next, or with `None` once its
    /// entry has returned. The thread runs with the slot and the locks at
    /// hand.
    fn resume(&mut self, slot: &mut Slot, response: Response, world: &mut W) -> (asked: Option<
        Request<P>,
    >)
        ensures
            final(self).resumed() == old(self).resumed().push(old(slot).current),
            final(self).returned() == (if asked is None {
                old(self).returned().push(old(slot).current)
            } else {
                old(self).returned()
            }),
            final(self).released() == old(self).released(),
            old(self).resumes(
                old(slot).current,
                response,
                *old(world),
                *final(self),
                *final(world),
                asked,
            ),
    ;

    /// Gives up the stack of the thread that `node` names. The scheduler
    /// calls this for a thread whose entry has returned, once the thread is
    /// off the run queue and before any other thread is resumed.
    fn release(&mut self, node: usize)
        ensures
            final(self).released() == old(self).released().push(node),
            final(self).resumed() == old(self).resumed(),
            final(self).returned() == old(self).returned(),
    ;
}

/// What one turn of the scheduler comes to, where the head of `queue` was
/// resumed with the response `owed`, left the threads at `mid` and the world
/// at `mid_world`, and asked `asked`. The scheduler acts on the request as
/// `Scheduler::dispatch` says. A thread whose entry has returned is released
/// at once, and the next thread is owed an empty hand-back; after any other
/// request the threads are as the resumption left them, and the next thread
/// is owed the response to the request.
pub open spec fn turned<W, P: Parker<W>, T: Threads<W, P>>(
    queue: Seq<usize>,
    owed: Response,
    threads: T,
    world: W,
    asked: Option<Request<P>>,
    mid: T,
    mid_world: W,
    queue_then: Seq<usize>,
    owed_then: Response,
    threads_then: T,
    world_then: W,
) -> bool {
    &&& threads.resumes(queue[0], owed, world, mid, mid_world, asked)
    &&& threads_then.resumed() == threads.resumed().push(queue[0])
    &&& if has_parker(asked) {
        exists|woken: Option<usize>|
            {
                &&& #[trigger] parker_of(asked).parks(queue[0], mid_world, world_then, woken)
                &&& queue_then == queue_after(queue, asked, woken)
            }
    } else {
        &&& world_then == mid_world
        &&& queue_then == queue_after(queue, asked, None)
    }
    &&& if asked is None {
        &&& owed_then == Response::Unscheduled(None)
        &&& threads_then.released() == threads.released().push(queue[0])
        &&& threads_then.returned() == threads.returned().push(queue[0])
    } else {
        &&& owed_then == response_to(queue, asked)
        &&& threads_then == mid
        &&& threads_then.released() == threads.released()
        &&& threads_then.returned() == threads.returned()
    }
}

/// Whether `n` turns in a row, each with a thread at the head of the queue,
/// lead from the first state to the second.
pub open spec fn ran<W, P: Parker<W>, T: Threads<W, P>>(
    n: nat,
    queue: Seq<usize>,
    owed: Response,
    threads: T,
    world: W,
    queue_then: Seq<usize>,
    owed_then: Response,
    threads_then: T,
    world_then: W,
) -> bool
    decreases n,
{
    if n == 0 {
        &&& queue_then == queue
        &&& owed_then == owed
        &&& threads_then == threads
        &&& world_then == world
    } else {
        exists|
            q: Seq<usize>,
            o: Response,
            t: T,
            w: W,
            asked: Option<Request<P>>,
            mid: T,
            mid_world: W,
        |
            {
                &&& ran((n - 1) as nat, queue, owed, threads, world, q, o, t, w)
                &&& q.len() > 0
                &&& #[trigger] turned(
                    q,
                    o,
                    t,
                    w,
                    asked,
                    mid,
                    mid_world,
                    queue_then,
                    owed_then,
                    threads_then,
                    world_then,
                )
            }
    }
}

/// What the end of a run comes to. With threads left in the queue nothing
/// is done. Once the queue has drained nothing is owed any more, and a node
/// that was handed back with no thread left to take it is released.
pub open spec fn settled<W, P: Parker<W>, T: Threads<W, P>>(
    queue: Seq<usize>,
    owed: Response,
    threads: T,
    owed_then: Response,
    threads_then: T,
) -> bool {
    if queue.len() > 0 {
        &&& owed_then == owed
        &&& threads_then == threads
    } else {
        &&& owed_then == Response::Nothing
        &&& threads_then.resumed() == threads.resumed()
        &&& threads_then.returned() == threads.returned()
        &&& match owed {
            Response::Unscheduled(Some(node)) => threads_then.released()
                == threads.released().push(node),
            _ => threads_then == threads,
        }
    }
}

/// Whether `prefix` is how `log` begins.
pub open spec fn begins_with(log: Seq<usize>, prefix: Seq<usize>) -> bool {
    prefix.len() <= log.len() && log.take(prefix.len() as int) =~= prefix
}

/// The scheduler: it owns the run queue, whose head is the running thread,
/// and keeps the response that the next thread to run is owed.
pub struct Scheduler<Q: Queue> {
    queue: Q,
    response: Response,
}

impl<Q: Queue> View for Scheduler<Q> {
    type V = Seq<usize>;

    closed spec fn view(&self) -> Seq<usize> {
        self.queue.nodes()
    }
}

impl<Q: Queue> Scheduler<Q> {
    /// The response that `run` hands to the next thread it resumes.
    pub closed spec fn pending(&self) -> Response {
        self.response
    }

    /// A scheduler over the given run queue.
    pub fn new(queue: Q) -> (scheduler: Scheduler<Q>)
        ensures
            scheduler@ == queue.nodes(),
            scheduler.pending() == Response::Nothing,
    {
        Scheduler { queue, response: Response::Nothing }
    }

    /// The run queue, head first.
    pub fn queue(&self) -> (queue: &Q)
        ensures
            queue.nodes() == self@,
    {
        &self.queue
    }

    /// The thread to resume next, published in the slot so that the thread
    /// finds itself there; `None`, with the slot untouched, once the queue
    /// has drained.
    pub fn next_request(&self, slot: &mut Slot) -> (head: Option<usize>)
        ensures
            head == head_of(self@),
            final(slot).no_preempt == old(slot).no_preempt,
            final(slot).current == (match head {
                Some(node) => node,
                None => old(slot).current,
            }),
    {
        let head: Option<usize> = self.queue.front();
        if let Some(node) = head {
            crate::arch::set(slot, node);
        }
        head
    }

    /// Acts on what the thread at the head of the queue asked for. A parker
    /// is called here, once, with the node that has just been taken off the
    /// queue: after the asking thread suspended, before anything else runs.
    pub fn dispatch<W, P: Parker<W>>(&mut self, request: Option<Request<P>>, world: &mut W) -> (response: Response)
        requires
            old(self)@.len() > 0,
        ensures
            response == response_to(old(self)@, request),
            final(self).pending() == old(self).pending(),
            has_parker(request) ==> exists|woken: Option<usize>|
                {
                    &&& #[trigger] parker_of(request).parks(
                        old(self)@[0],
                        *old(world),
                        *final(world),
                        woken,
                    )
                    &&& final(self)@ == queue_after(old(self)@, request, woken)
                },
            !has_parker(request) ==> {
                &&& *final(world) == *old(world)
                &&& final(self)@ == queue_after(old(self)@, request, None)
            },
    {
        match request {
            Some(Request::Yield) => {
                let popped: Option<usize> = self.queue.pop();
                match popped {
                    Some(node) => {
                        self.queue.push(node);
                    },
                    None => {},
                }
                Response::Nothing
            },
            Some(Request::Schedule(node)) => {
                self.queue.push(node);
                Response::Nothing
            },
            Some(Request::Unschedule(Some(parker))) => {
                let popped: Option<usize> = self.queue.pop();
                match popped {
                    Some(node) => {
                        let woken: Option<usize> = parker.park(node, world);
                        match woken {
                            Some(next) => {
                                self.queue.push(next);
                            },
                            None => {},
                        }
                        assert(parker_of(request).parks(old(self)@[0], *old(world), *world, woken));
                        assert(self@ == queue_after(old(self)@, request, woken));
                    },
                    None => {},
                }
                Response::Unscheduled(None)
            },
            Some(Request::Unschedule(None)) | None => {
                let popped: Option<usize> = self.queue.pop();
                Response::Unscheduled(popped)
            },
        }
    }

    /// One turn: names the head in the slot, resumes it with the response
    /// it is owed, and acts on its request; a thread whose entry has
    /// returned is released. Says which thread had the turn; with an empty
    /// run queue none has, and nothing changes.
    pub fn turn<W, P: Parker<W>, T: Threads<W, P>>(
        &mut self,
        slot: &mut Slot,
        threads: &mut T,
        world: &mut W,
    ) -> (node: Option<usize>)
        ensures
            node == head_of(old(self)@),
            node is None ==> {
                &&& final(self)@ == old(self)@
                &&& final(self).pending() == old(self).pending()
                &&& *final(threads) == *old(threads)
                &&& *final(world) == *old(world)
                &&& *final(slot) == *old(slot)
            },
            node is Some ==> {
                &&& final(threads).resumed() == old(threads).resumed().push(old(self)@[0])
                &&& {
                    ||| {
                        &&& final(threads).returned() == old(threads).returned().push(
                            old(self)@[0],
                        )
                        &&& final(threads).released() == old(threads).released().push(
                            old(self)@[0],
                        )
                    }
                    ||| {
                        &&& final(threads).returned() == old(threads).returned()
                        &&& final(threads).released() == old(threads).released()
                    }
                }
                &&& exists|asked: Option<Request<P>>, mid: T, mid_world: W| #[trigger]
                    turned(
                        old(self)@,
                        old(self).pending(),
                        *old(threads),
                        *old(world),
                        asked,
                        mid,
                        mid_world,
                        final(self)@,
                        final(self).pending(),
                        *final(threads),
                        *final(world),
                    )
            },
    {
        match self.next_request(slot) {
            Some(node) => {
                let asked: Option<Request<P>> = threads.resume(slot, self.response, world);
                let ghost mid = *threads;
                let ghost mid_world = *world;
                let finished: bool = asked.is_none();
                let response: Response = self.dispatch(asked, world);
                if finished {
                    threads.release(node);
                    self.response = Response::Unscheduled(None);
                } else {
                    self.response = response;
                }
                proof {
                    assert(turned(
                        old(self)@,
                        old(self).pending(),
                        *old(threads),
                        *old(world),
                        asked,
                        mid,
                        mid_world,
                        self@,
                        self.pending(),
                        *threads,
                        *world,
                    ));
                }
                Some(node)
            },
            None => None,
        }
    }

    /// Drives the threads for at most `turns` turns, until the run queue has
    /// drained, and says whether it has. Each turn is one of `turn`. When
    /// the queue has drained, a node that was handed back with no thread
    /// left to take it is released too. A later call goes on where this one
    /// stopped.
    ///
    /// While the queue holds a thread and a turn is left, the head is
    /// resumed, the first time the head that `run` found. `run` gives up
    /// only after `turns` resumptions. Every thread whose entry returned in
    /// the course of it has been released, in the order in which they
    /// returned, when `run` comes back.
    pub fn run<W, P: Parker<W>, T: Threads<W, P>>(
        &mut self,
        slot: &mut Slot,
        threads: &mut T,
        world: &mut W,
        turns: usize,
    ) -> (drained: bool)
        ensures
            drained == (final(self)@.len() == 0),
            drained ==> final(self).pending() == Response::Nothing,
            turns == 0 && !drained ==> final(self).pending() == old(self).pending(),
            exists|n: nat, owed: Response, before: T|
                {
                    &&& n <= turns
                    &&& n == turns || final(self)@.len() == 0
                    &&& #[trigger] ran(
                        n,
                        old(self)@,
                        old(self).pending(),
                        *old(threads),
                        *old(world),
                        final(self)@,
                        owed,
                        before,
                        *final(world),
                    )
                    &&& settled::<W, P, T>(
                        final(self)@,
                        owed,
                        before,
                        final(self).pending(),
                        *final(threads),
                    )
                },
            old(self)@.len() == 0 || turns == 0 ==> final(self)@ == old(self)@ && *final(world)
                == *old(world) && *final(slot) == *old(slot) && final(threads).resumed() == old(threads).resumed(),
            begins_with(final(threads).resumed(), old(threads).resumed()),
            final(threads).resumed().len() <= old(threads).resumed().len() + turns,
            old(self)@.len() > 0 && turns > 0 ==> final(threads).resumed().len() > old(threads).resumed().len() && final(threads).resumed()[old(threads).resumed().len() as int]
                == old(self)@[0],
            !drained ==> final(threads).resumed().len() == old(threads).resumed().len() + turns,
            begins_with(final(threads).returned(), old(threads).returned()),
            begins_with(
                final(threads).released(),
                old(threads).released() + final(threads).returned().skip(
                    old(threads).returned().len() as int,
                ),
            ),
            final(threads).released().len() <= old(threads).released().len() + (final(
                threads
            ).returned().len() - old(threads).returned().len()) + 1,
            !drained ==> final(threads).released() == old(threads).released() + final(
                threads
            ).returned().skip(old(threads).returned().len() as int),
    {
        let mut left: usize = turns;
        while left > 0
            invariant
                left == turns ==> self.pending() == old(self).pending(),
                old(self)@.len() == 0 || left == turns ==> self@ == old(self)@ && *world == *old(world) && *slot == *old(slot) && threads.resumed() == old(threads).resumed(),
                left <= turns,
                ran(
                    (turns - left) as nat,
                    old(self)@,
                    old(self).pending(),
                    *old(threads),
                    *old(world),
                    self@,
                    self.pending(),
                    *threads,
                    *world,
                ),
                begins_with(threads.resumed(), old(threads).resumed()),
                threads.resumed().len() == old(threads).resumed().len() + (turns - left),
                left < turns ==> old(self)@.len() > 0 && threads.resumed()[old(threads).resumed().len() as int] == old(self)@[0],
                begins_with(threads.returned(), old(threads).returned()),
                threads.released() == old(threads).released() + threads.returned().skip(
                    old(threads).returned().len() as int,
                ),
            decreases left,
        {
            let ghost log = threads.resumed();
            let ghost gone = threads.returned();
            match self.turn(slot, threads, world) {
                Some(_) => {
                    proof {
                        let n: int = old(threads).resumed().len() as int;
                        let g: int = old(threads).returned().len() as int;
                        assert(threads.resumed().take(n) =~= log.take(n));
                        assert(threads.returned().take(g) =~= gone.take(g));
                        assert(threads.released() =~= old(threads).released()
                            + threads.returned().skip(g));
                    }
                },
                None => {
                    let ghost out = threads.released();
                    let ghost owed = self.pending();
                    let ghost before = *threads;
                    self.settle(threads);
                    proof {
                        assert(threads.released().take(out.len() as int) =~= out);
                        assert(settled::<W, P, T>(self@, owed, before, self.pending(), *threads));
                    }
                    return true;
                },
            }
            left = left - 1;
        }
        let ghost owed = self.pending();
        let ghost before = *threads;
        if self.queue.front().is_none() {
            let ghost out = threads.released();
            self.settle(threads);
            proof {
                assert(threads.released().take(out.len() as int) =~= out);
                assert(settled::<W, P, T>(self@, owed, before, self.pending(), *threads));
            }
            true
        } else {
            proof {
                assert(settled::<W, P, T>(self@, owed, before, self.pending(), *threads));
            }
            false
        }
    }

    /// Releases the node that was handed back in a response that no thread
    /// is left to take.
    fn settle<W, P: Parker<W>, T: Threads<W, P>>(&mut self, threads: &mut T)
        ensures
            final(self)@ == old(self)@,
            final(self).pending() == Response::Nothing,
            final(threads).resumed() == old(threads).resumed(),
            final(threads).returned() == old(threads).returned(),
            final(threads).released() == (match old(self).pending() {
                Response::Unscheduled(Some(node)) => old(threads).released().push(node),
                _ => old(threads).released(),
            }),
            !(old(self).pending() matches Response::Unscheduled(Some(_))) ==> *final(threads)
                == *old(threads),
    {
        match self.response {
            Response::Unscheduled(Some(node)) => {
                threads.release(node);
            },
            _ => {},
        }
        self.response = Response::Nothing;
    }
}

/// A queue after `n` yields in a row, each made by the thread then at its
/// head.
pub open spec fn rotated_by(nodes: Seq<usize>, n: nat) -> Seq<usize>
    decreases n,
{
    if n == 0 {
        nodes
    } else {
        rotated(rotated_by(nodes, (n - 1) as nat))
    }
}

/// Yielding is a rotation. After `n` yields the first `n` threads stand, in
/// their old order, behind the others; the thread that makes the next yield
/// is the one that stood at place `n`; and once every thread has yielded
/// once the queue is as it was.
pub proof fn lemma_yield_rotates(nodes: Seq<usize>, n: nat)
    requires
        n <= nodes.len(),
    ensures
        rotated_by(nodes, n) == nodes.skip(n as int) + nodes.take(n as int),
        n < nodes.len() ==> head_of(rotated_by(nodes, n)) == Some(nodes[n as int]),
        n == nodes.len() ==> rotated_by(nodes, n) == nodes,
    decreases n,
{
    if n > 0 {
        let m: nat = (n - 1) as nat;
        lemma_yield_rotates(nodes, m);
        let before: Seq<usize> = nodes.skip(m as int) + nodes.take(m as int);
        assert(before.len() > 0);
        assert(before[0] == nodes[m as int]);
        assert(rotated(before) =~= nodes.skip(n as int) + nodes.take(n as int));
    }
    assert(nodes.skip(n as int) + nodes.take(n as int) =~= rotated_by(nodes, n));
    if n == nodes.len() {
        assert(nodes.skip(n as int) + nodes.take(n as int) =~= nodes);
    }
}

} // verus!
