//! Blocking locks built on the request protocol: a mutex that hands itself
//! over to its longest-waiting thread, and a condition variable.
//!
//! A lock never switches stacks itself. Each operation changes the lock's
//! state and hands back the request that the calling thread must make of the
//! scheduler, if any.

use vstd::multiset::Multiset;
use vstd::prelude::*;
use vstd::seq_lib::lemma_multiset_commutative;
use vstd::seq_lib::to_multiset_build;
use crate::scheduler::head_of;
use crate::scheduler::queue_after;
use crate::scheduler::rest_of;
use crate::scheduler::rotated;
use crate::scheduler::with_woken;
use crate::scheduler::Parker;
use crate::scheduler::Queue;
use crate::scheduler::Request;

verus! {

/// Why `try_lock` did not hand out a guard.
#[derive(PartialEq, Eq, Structural, Clone, Copy, Debug)]
pub enum TryLockError {
    /// Another thread holds the mutex.
    WouldBlock,
}

/// The right to the data that a mutex protects. It cannot be copied, and it
/// ends in `Mutex::unlock` or in a wait. It remembers the mutex that it came
/// from.
#[must_use]
#[derive(Debug)]
pub struct MutexGuard {
    lock: usize,
}

impl View for MutexGuard {
    type V = usize;

    /// The word that names the mutex which this guard protects.
    closed spec fn view(&self) -> usize {
        self.lock
    }
}

impl MutexGuard {
    /// The word that names the mutex which this guard protects.
    pub fn lock(&self) -> (id: usize)
        ensures
            id == self@,
    {
        self.lock
    }
}

/// A mutex as contracts see it.
pub struct MutexState {
    /// The word that names the mutex.
    pub id: usize,
    /// The waiting threads, longest-waiting first.
    pub waiters: Seq<usize>,
    /// Whether some thread holds the mutex.
    pub taken: bool,
    /// The thread that the mutex has been handed to and that has not yet
    /// run again to pick its guard up.
    pub handed: Option<usize>,
}

impl MutexState {
    /// A new mutex: free, with no waiters.
    pub open spec fn fresh(id: usize) -> MutexState {
        MutexState { id, waiters: Seq::empty(), taken: false, handed: None }
    }

    /// No thread waits, and no guard lies ready, unless the mutex is taken.
    pub open spec fn wf(self) -> bool {
        !self.taken ==> self.waiters.len() == 0 && self.handed is None
    }

    /// The state once a thread has asked for the mutex without blocking.
    pub open spec fn acquired(self) -> MutexState {
        MutexState { id: self.id, waiters: self.waiters, taken: true, handed: self.handed }
    }

    /// The state once `node` has parked: it waits if the mutex is taken, and
    /// is handed the mutex if it is free.
    pub open spec fn parked(self, node: usize) -> MutexState {
        if self.taken {
            MutexState {
                id: self.id,
                waiters: self.waiters.push(node),
                taken: true,
                handed: self.handed,
            }
        } else {
            MutexState { id: self.id, waiters: self.waiters, taken: true, handed: Some(node) }
        }
    }

    /// The node that parking sets free at once: the parking node itself,
    /// where it found the mutex free.
    pub open spec fn parked_wakes(self, node: usize) -> Option<usize> {
        if self.taken {
            None
        } else {
            Some(node)
        }
    }

    /// The state once a guard has come back: the mutex is handed to the
    /// longest-waiting thread, if there is one, and is free if there is
    /// none.
    pub open spec fn released(self) -> MutexState {
        MutexState {
            id: self.id,
            waiters: rest_of(self.waiters),
            taken: self.waiters.len() > 0,
            handed: head_of(self.waiters),
        }
    }

    /// The thread to which a release hands the mutex.
    pub open spec fn released_wakes(self) -> Option<usize> {
        head_of(self.waiters)
    }

    /// The state once `node` has run again and asked for its guard: the
    /// guard is gone if it lay ready for `node`, and stays if it lies ready
    /// for another.
    pub open spec fn resumed(self, node: usize) -> MutexState {
        if self.handed == Some(node) {
            MutexState { id: self.id, waiters: self.waiters, taken: self.taken, handed: None }
        } else {
            self
        }
    }
}

/// The request that makes `woken`, if there is one, runnable.
pub open spec fn schedule_of(woken: Option<usize>) -> Option<Request<LockParker>> {
    match woken {
        Some(node) => Some(Request::Schedule(node)),
        None => None,
    }
}

/// A mutual-exclusion lock: a queue of waiting threads and a taken bit.
pub struct Mutex<Q: Queue> {
    id: usize,
    queue: Q,
    taken: bool,
    handed: Option<usize>,
}

impl<Q: Queue> View for Mutex<Q> {
    type V = MutexState;

    closed spec fn view(&self) -> MutexState {
        MutexState {
            id: self.id,
            waiters: self.queue.nodes(),
            taken: self.taken,
            handed: self.handed,
        }
    }
}

impl<Q: Queue> Mutex<Q> {
    /// A free mutex with no waiters, named by the word `id`.
    pub fn new(id: usize) -> (mutex: Mutex<Q>)
        ensures
            mutex@ == MutexState::fresh(id),
            mutex@.wf(),
    {
        Mutex { id, queue: Q::new(), taken: false, handed: None }
    }

    /// The word that names this mutex.
    pub fn id(&self) -> (id: usize)
        ensures
            id == self@.id,
    {
        self.id
    }

    /// Whether some thread holds the mutex.
    pub fn is_taken(&self) -> (taken: bool)
        ensures
            taken == self@.taken,
    {
        self.taken
    }

    /// The waiting threads, longest-waiting first.
    pub fn waiters(&self) -> (queue: &Q)
        ensures
            queue.nodes() == self@.waiters,
    {
        &self.queue
    }

    /// Takes the mutex if it is free, and fails at once if it is not.
    pub fn try_lock(&mut self) -> (result: Result<MutexGuard, TryLockError>)
        ensures
            result is Err <==> old(self)@.taken,
            result matches Err(error) ==> error == TryLockError::WouldBlock,
            result matches Ok(guard) ==> guard@ == old(self)@.id,
            final(self)@ == old(self)@.acquired(),
            final(self)@.wf(),
    {
        if self.taken {
            Err(TryLockError::WouldBlock)
        } else {
            self.taken = true;
            Ok(MutexGuard { lock: self.id })
        }
    }

    /// Takes the mutex if it is free. If it is not, hands back the request
    /// that parks the calling thread on this mutex; the mutex has been
    /// handed to the thread when it runs again, and `resume` gives it the
    /// guard.
    pub fn lock(&mut self) -> (result: Result<MutexGuard, Request<LockParker>>)
        ensures
            result is Err <==> old(self)@.taken,
            result matches Err(request) ==> request == Request::Unschedule(Some(LockParker::Lock)),
            result matches Ok(guard) ==> guard@ == old(self)@.id,
            final(self)@ == old(self)@.acquired(),
            final(self)@.wf(),
    {
        if self.taken {
            Err(Request::Unschedule(Some(LockParker::Lock)))
        } else {
            self.taken = true;
            Ok(MutexGuard { lock: self.id })
        }
    }

    /// Picks up the guard that lies ready for `node`, the thread that parked
    /// on this mutex and now runs again. There is none unless the mutex has
    /// been handed to this very thread.
    pub fn resume(&mut self, node: usize) -> (guard: Option<MutexGuard>)
        ensures
            guard is Some <==> old(self)@.handed == Some(node),
            guard matches Some(held) ==> held@ == old(self)@.id,
            final(self)@ == old(self)@.resumed(node),
            old(self)@.wf() ==> final(self)@.wf(),
    {
        match self.handed {
            Some(to) => {
                if to == node {
                    self.handed = None;
                    Some(MutexGuard { lock: self.id })
                } else {
                    None
                }
            },
            None => None,
        }
    }

    /// Stores the node of a thread that asked for the mutex. It joins the
    /// waiters behind all the others. Had the mutex been free, it would be
    /// handed to the node, which would come back to be scheduled again.
    pub fn park(&mut self, node: usize) -> (woken: Option<usize>)
        ensures
            final(self)@ == old(self)@.parked(node),
            woken == old(self)@.parked_wakes(node),
            final(self)@.wf(),
    {
        if self.taken {
            self.queue.push(node);
            None
        } else {
            self.taken = true;
            self.handed = Some(node);
            Some(node)
        }
    }

    /// Gives back a guard of this mutex. The mutex is handed to the
    /// longest-waiting thread, if there is one: it stays taken, a guard lies
    /// ready for that thread, and the request that makes the thread runnable
    /// is handed back. With no waiter the mutex is free.
    pub fn unlock(&mut self, guard: MutexGuard) -> (wake: Option<Request<LockParker>>)
        requires
            guard@ == old(self)@.id,
        ensures
            final(self)@ == old(self)@.released(),
            wake == schedule_of(old(self)@.released_wakes()),
            final(self)@.wf(),
    {
        match self.release(guard) {
            Some(node) => Some(Request::Schedule(node)),
            None => None,
        }
    }

    fn release(&mut self, guard: MutexGuard) -> (woken: Option<usize>)
        requires
            guard@ == old(self)@.id,
        ensures
            final(self)@ == old(self)@.released(),
            woken == old(self)@.released_wakes(),
    {
        let MutexGuard { lock: _ } = guard;
        let woken: Option<usize> = self.queue.pop();
        self.taken = woken.is_some();
        self.handed = woken;
        woken
    }
}

/// A condition variable: a queue of sleeping threads. It keeps no record of
/// the mutex that its sleepers gave up.
pub struct Condvar<Q: Queue> {
    sleepers: Q,
}

impl<Q: Queue> View for Condvar<Q> {
    type V = Seq<usize>;

    closed spec fn view(&self) -> Seq<usize> {
        self.sleepers.nodes()
    }
}

impl<Q: Queue> Condvar<Q> {
    /// A condition variable with no sleepers.
    pub fn new() -> (condvar: Condvar<Q>)
        ensures
            condvar@ == Seq::<usize>::empty(),
    {
        Condvar { sleepers: Q::new() }
    }

    /// The sleeping threads, longest-sleeping first.
    pub fn sleepers(&self) -> (queue: &Q)
        ensures
            queue.nodes() == self@,
    {
        &self.sleepers
    }

    /// Gives up `guard` to sleep here: hands back the request that parks the
    /// calling thread among the sleepers and then releases the mutex. The
    /// thread locks the mutex again once it has been woken.
    pub fn wait(&self, guard: MutexGuard) -> (request: Request<LockParker>)
        ensures
            request == Request::Unschedule(Some(LockParker::Wait(guard))),
    {
        Request::Unschedule(Some(LockParker::Wait(guard)))
    }

    /// Stores the node of a thread that waits here, behind all the others.
    pub fn park(&mut self, node: usize)
        ensures
            final(self)@ == old(self)@.push(node),
    {
        self.sleepers.push(node);
    }

    /// Wakes the longest-sleeping thread, if there is one: hands back the
    /// request that makes it runnable.
    pub fn notify_one(&mut self) -> (wake: Option<Request<LockParker>>)
        ensures
            final(self)@ == rest_of(old(self)@),
            wake == schedule_of(head_of(old(self)@)),
    {
        match self.sleepers.pop() {
            Some(node) => Some(Request::Schedule(node)),
            None => None,
        }
    }

    /// Wakes every sleeper: hands back, longest-sleeping first, the requests
    /// that make them runnable.
    pub fn notify_all(&mut self) -> (wakes: Vec<Request<LockParker>>)
        ensures
            final(self)@ == Seq::<usize>::empty(),
            wakes@.len() == old(self)@.len(),
            forall|i: int| 0 <= i < wakes@.len() ==> wakes@[i] == Request::<LockParker>::Schedule(old(self)@[i]),
    {
        let mut wakes: Vec<Request<LockParker>> = Vec::new();
        loop
            invariant
                wakes@.len() + self@.len() == old(self)@.len(),
                self@ == old(self)@.skip(wakes@.len() as int),
                forall|i: int| 0 <= i < wakes@.len() ==> wakes@[i] == Request::<LockParker>::Schedule(old(self)@[i]),
            ensures
                self@.len() == 0,
            decreases self@.len(),
        {
            match self.sleepers.pop() {
                Some(node) => {
                    wakes.push(Request::Schedule(node));
                },
                None => {
                    break;
                },
            }
        }
        wakes
    }
}

/// A mutex together with the condition variable that its holders wait on.
pub struct Monitor<Q: Queue> {
    pub mutex: Mutex<Q>,
    pub condvar: Condvar<Q>,
}

impl<Q: Queue> Monitor<Q> {
    /// A free mutex, named by the word `id`, and a condition variable
    /// without sleepers.
    pub fn new(id: usize) -> (monitor: Monitor<Q>)
        ensures
            monitor.mutex@ == MutexState::fresh(id),
            monitor.mutex@.wf(),
            monitor.condvar@ == Seq::<usize>::empty(),
    {
        Monitor { mutex: Mutex::new(id), condvar: Condvar::new() }
    }
}

/// The two ways in which a lock stores the node of a thread that blocks.
#[derive(Debug)]
pub enum LockParker {
    /// The thread asked for the mutex: its node joins the mutex's waiters.
    Lock,
    /// The thread waits on the condition variable: its node joins the
    /// sleepers, and then the guard that it gave up goes back to the mutex.
    /// A guard of another mutex releases nothing here.
    Wait(MutexGuard),
}

impl<Q: Queue> Parker<Monitor<Q>> for LockParker {
    open spec fn parks(
        &self,
        node: usize,
        before: Monitor<Q>,
        after: Monitor<Q>,
        woken: Option<usize>,
    ) -> bool {
        match self {
            LockParker::Lock => {
                &&& after.mutex@ == before.mutex@.parked(node)
                &&& after.condvar@ == before.condvar@
                &&& woken == before.mutex@.parked_wakes(node)
            },
            LockParker::Wait(guard) => {
                &&& after.condvar@ == before.condvar@.push(node)
                &&& if guard@ == before.mutex@.id {
                    &&& after.mutex@ == before.mutex@.released()
                    &&& woken == before.mutex@.released_wakes()
                } else {
                    &&& after.mutex@ == before.mutex@
                    &&& woken is None
                }
            },
        }
    }

    fn park(self, node: usize, world: &mut Monitor<Q>) -> (woken: Option<usize>) {
        match self {
            LockParker::Lock => world.mutex.park(node),
            LockParker::Wait(guard) => {
                world.condvar.park(node);
                if guard.lock == world.mutex.id {
                    world.mutex.release(guard)
                } else {
                    None
                }
            },
        }
    }
}

/// A mutex that has been released `k` times in a row, each time by the
/// thread that then held it.
pub open spec fn released_by(state: MutexState, k: nat) -> MutexState
    decreases k,
{
    if k == 0 {
        state
    } else {
        released_by(state, (k - 1) as nat).released()
    }
}

/// Releases wake the waiters in the order in which they came: the release
/// after `k` earlier ones hands the mutex to the waiter at place `k`.
pub proof fn lemma_wakes_in_order(state: MutexState, k: nat)
    requires
        k < state.waiters.len(),
    ensures
        released_by(state, k).waiters == state.waiters.skip(k as int),
        released_by(state, k).released_wakes() == Some(state.waiters[k as int]),
        released_by(state, k).released().handed == Some(state.waiters[k as int]),
    decreases k,
{
    if k > 0 {
        lemma_wakes_in_order(state, (k - 1) as nat);
        assert(state.waiters.skip(k - 1).skip(1) =~= state.waiters.skip(k as int));
    } else {
        assert(state.waiters.skip(0) =~= state.waiters);
    }
}

/// A thread that parks on a taken mutex is woken after every thread that
/// waited before it, and by the very next release after those: that release
/// leaves the mutex taken and handed to this thread, so that the thread
/// finds its guard when it runs again.
pub proof fn lemma_newcomer_is_woken_last(state: MutexState, node: usize, k: nat)
    requires
        state.taken,
        k <= state.waiters.len(),
    ensures
        k < state.waiters.len() ==> released_by(state.parked(node), k).released_wakes() == Some(
            state.waiters[k as int],
        ),
        k == state.waiters.len() ==> released_by(state.parked(node), k).released_wakes() == Some(
            node,
        ),
        k == state.waiters.len() ==> released_by(state.parked(node), k).released().taken
            && released_by(state.parked(node), k).released().handed == Some(node),
{
    lemma_wakes_in_order(state.parked(node), k);
}

/// One thing that a thread does to a mutex.
pub enum MutexOp {
    /// It asks for the mutex without blocking: `try_lock`, or `lock`.
    Acquire,
    /// Its node is parked, after it asked and found the mutex taken.
    Park(usize),
    /// It gives its guard back.
    Unlock,
    /// It runs again after parking and asks for the guard that lies ready
    /// for it.
    Resume(usize),
}

impl MutexState {
    /// The state after `op`.
    pub open spec fn step(self, op: MutexOp) -> MutexState {
        match op {
            MutexOp::Acquire => self.acquired(),
            MutexOp::Park(node) => self.parked(node),
            MutexOp::Unlock => self.released(),
            MutexOp::Resume(node) => self.resumed(node),
        }
    }

    /// By how much `op` changes the number of guards in the hands of
    /// threads: an acquisition that finds the mutex free and a pick-up of a
    /// guard that lies ready add one, a release takes one away.
    pub open spec fn hands_out(self, op: MutexOp) -> int {
        match op {
            MutexOp::Acquire => if self.taken {
                0
            } else {
                1
            },
            MutexOp::Park(_) => 0,
            MutexOp::Unlock => -1,
            MutexOp::Resume(node) => if self.handed == Some(node) {
                1
            } else {
                0
            },
        }
    }
}

/// A mutex after the operations `ops`, oldest first.
pub open spec fn later(state: MutexState, ops: Seq<MutexOp>) -> MutexState
    decreases ops.len(),
{
    if ops.len() == 0 {
        state
    } else {
        later(state, ops.drop_last()).step(ops.last())
    }
}

/// The new mutex `id` after the operations `ops`, oldest first.
pub open spec fn state_after(id: usize, ops: Seq<MutexOp>) -> MutexState {
    later(MutexState::fresh(id), ops)
}

/// How many guards of the new mutex `id` are in the hands of threads after
/// the operations `ops`.
pub open spec fn guards_after(id: usize, ops: Seq<MutexOp>) -> int
    decreases ops.len(),
{
    if ops.len() == 0 {
        0
    } else {
        guards_after(id, ops.drop_last()) + state_after(id, ops.drop_last()).hands_out(
            ops.last(),
        )
    }
}

/// Whether every release among `ops` gave back a guard that a thread had.
pub open spec fn released_by_holders(id: usize, ops: Seq<MutexOp>) -> bool
    decreases ops.len(),
{
    ops.len() == 0 || (released_by_holders(id, ops.drop_last()) && (ops.last() is Unlock
        ==> guards_after(id, ops.drop_last()) >= 1))
}

/// A wait ends on the mutex on which it began. The parker of a wait gives
/// the guard back to the mutex that the guard came from; and whatever is
/// done to that mutex until the sleeper has it again, it is still the mutex
/// that the guard named, so that the guard which it then hands out protects
/// what the guard given up protected.
pub proof fn lemma_wait_keeps_its_mutex<Q: Queue>(
    guard: MutexGuard,
    node: usize,
    before: Monitor<Q>,
    after: Monitor<Q>,
    woken: Option<usize>,
    ops: Seq<MutexOp>,
)
    requires
        guard@ == before.mutex@.id,
        LockParker::Wait(guard).parks(node, before, after, woken),
    ensures
        after.mutex@ == before.mutex@.released(),
        later(after.mutex@, ops).id == guard@,
    decreases ops.len(),
{
    if ops.len() > 0 {
        lemma_wait_keeps_its_mutex(guard, node, before, after, woken, ops.drop_last());
    }
}

/// Mutual exclusion. As long as a release gives back a guard that a thread
/// had, there is at most one guard, in a thread's hands or lying ready for
/// the thread that the mutex was handed to; the taken bit is set exactly
/// while there is one; and no thread waits on a free mutex.
pub proof fn lemma_taken_iff_held(id: usize, ops: Seq<MutexOp>)
    requires
        released_by_holders(id, ops),
    ensures
        0 <= guards_after(id, ops) <= 1,
        state_after(id, ops).handed is Some ==> guards_after(id, ops) == 0,
        state_after(id, ops).taken <==> guards_after(id, ops) == 1 || state_after(
            id,
            ops,
        ).handed is Some,
        state_after(id, ops).wf(),
        state_after(id, ops).id == id,
    decreases ops.len(),
{
    if ops.len() > 0 {
        lemma_taken_iff_held(id, ops.drop_last());
    }
}

/// The nodes that the run queue, the mutex's waiters and the sleepers hold
/// between them, each as often as it occurs.
pub open spec fn population(run: Seq<usize>, mutex: MutexState, sleepers: Seq<usize>) -> Multiset<
    usize,
> {
    (run + mutex.waiters + sleepers).to_multiset()
}

/// No node stands in two queues, or twice in one.
pub open spec fn in_one_queue(run: Seq<usize>, mutex: MutexState, sleepers: Seq<usize>) -> bool {
    (run + mutex.waiters + sleepers).no_duplicates()
}

/// The queues hold as many nodes as the population counts, and two
/// arrangements of one population are alike in holding no node twice.
pub proof fn lemma_population_counts(
    run: Seq<usize>,
    mutex: MutexState,
    sleepers: Seq<usize>,
    run2: Seq<usize>,
    mutex2: MutexState,
    sleepers2: Seq<usize>,
)
    requires
        population(run, mutex, sleepers) == population(run2, mutex2, sleepers2),
    ensures
        population(run, mutex, sleepers).len() == run.len() + mutex.waiters.len() + sleepers.len(),
        run.len() + mutex.waiters.len() + sleepers.len() == run2.len() + mutex2.waiters.len()
            + sleepers2.len(),
        in_one_queue(run, mutex, sleepers) ==> in_one_queue(run2, mutex2, sleepers2),
{
    let a: Seq<usize> = run + mutex.waiters + sleepers;
    let b: Seq<usize> = run2 + mutex2.waiters + sleepers2;
    a.to_multiset_ensures();
    b.to_multiset_ensures();
    if a.no_duplicates() {
        a.lemma_multiset_has_no_duplicates();
        b.lemma_multiset_has_no_duplicates_conv();
    }
}

/// The nodes of three queues, counted queue by queue.
proof fn lemma_population_splits(run: Seq<usize>, waiters: Seq<usize>, sleepers: Seq<usize>)
    ensures
        (run + waiters + sleepers).to_multiset() =~= run.to_multiset().add(
            waiters.to_multiset(),
        ).add(sleepers.to_multiset()),
{
    lemma_multiset_commutative(run, waiters);
    lemma_multiset_commutative(run + waiters, sleepers);
}

/// A queue holds its head and the rest.
proof fn lemma_head_and_rest(nodes: Seq<usize>)
    requires
        nodes.len() > 0,
    ensures
        nodes.to_multiset() =~= rest_of(nodes).to_multiset().insert(nodes[0]),
{
    let first: Seq<usize> = Seq::<usize>::empty().push(nodes[0]);
    assert(nodes =~= first + nodes.skip(1));
    lemma_multiset_commutative(first, nodes.skip(1));
    to_multiset_build(Seq::<usize>::empty(), nodes[0]);
    lemma_empty_population();
}

/// The nodes of an empty queue.
proof fn lemma_empty_population()
    ensures
        Seq::<usize>::empty().to_multiset() =~= Multiset::<usize>::empty(),
{
    Seq::<usize>::empty().to_multiset_ensures();
    assert forall|x: usize| Seq::<usize>::empty().to_multiset().count(x) == 0 by {
        if Seq::<usize>::empty().to_multiset().count(x) > 0 {
            assert(Seq::<usize>::empty().to_multiset().contains(x));
        }
    }
}

/// Parking moves a node and neither loses nor copies one: after the
/// scheduler has acted on a request that carries a lock's parker, the three
/// queues hold between them the nodes that they held before.
pub proof fn lemma_park_keeps_population<Q: Queue>(
    run: Seq<usize>,
    parker: LockParker,
    before: Monitor<Q>,
    after: Monitor<Q>,
    woken: Option<usize>,
)
    requires
        run.len() > 0,
        parker.parks(run[0], before, after, woken),
    ensures
        population(
            queue_after(run, Some(Request::Unschedule(Some(parker))), woken),
            after.mutex@,
            after.condvar@,
        ) == population(run, before.mutex@, before.condvar@),
{
    let waiters: Seq<usize> = before.mutex@.waiters;
    let sleepers: Seq<usize> = before.condvar@;
    let rest: Seq<usize> = rest_of(run);
    let run_parked: Seq<usize> = queue_after(
        run,
        Some(Request::Unschedule(Some(parker))),
        woken,
    );
    lemma_population_splits(run, waiters, sleepers);
    lemma_population_splits(run_parked, after.mutex@.waiters, after.condvar@);
    lemma_head_and_rest(run);
    to_multiset_build(rest, run[0]);
    to_multiset_build(waiters, run[0]);
    to_multiset_build(sleepers, run[0]);
    if waiters.len() > 0 {
        lemma_head_and_rest(waiters);
        to_multiset_build(rest, waiters[0]);
    }
    assert(population(run_parked, after.mutex@, after.condvar@) =~= population(
        run,
        before.mutex@,
        sleepers,
    ));
}

/// Yields, releases and notifications move nodes and neither lose nor copy
/// one. A yield, a release followed by the request that it hands back, a
/// notification followed by its request, and a notification of all followed
/// by all of theirs each leave the population as it was.
pub proof fn lemma_moves_keep_population(run: Seq<usize>, mutex: MutexState, sleepers: Seq<usize>)
    ensures
        population(rotated(run), mutex, sleepers) == population(run, mutex, sleepers),
        population(with_woken(run, mutex.released_wakes()), mutex.released(), sleepers)
            == population(run, mutex, sleepers),
        population(with_woken(run, head_of(sleepers)), mutex, rest_of(sleepers)) == population(
            run,
            mutex,
            sleepers,
        ),
        population(run + sleepers, mutex, Seq::empty()) == population(run, mutex, sleepers),
{
    let waiters: Seq<usize> = mutex.waiters;
    lemma_population_splits(run, waiters, sleepers);
    // a yield
    lemma_population_splits(rotated(run), waiters, sleepers);
    if run.len() > 0 {
        lemma_head_and_rest(run);
        to_multiset_build(rest_of(run), run[0]);
    }
    assert(population(rotated(run), mutex, sleepers) =~= population(run, mutex, sleepers));
    // a release
    lemma_population_splits(with_woken(run, mutex.released_wakes()), rest_of(waiters), sleepers);
    if waiters.len() > 0 {
        lemma_head_and_rest(waiters);
        to_multiset_build(run, waiters[0]);
    }
    assert(population(with_woken(run, mutex.released_wakes()), mutex.released(), sleepers)
        =~= population(run, mutex, sleepers));
    // a notification
    lemma_population_splits(with_woken(run, head_of(sleepers)), waiters, rest_of(sleepers));
    if sleepers.len() > 0 {
        lemma_head_and_rest(sleepers);
        to_multiset_build(run, sleepers[0]);
    }
    assert(population(with_woken(run, head_of(sleepers)), mutex, rest_of(sleepers))
        =~= population(run, mutex, sleepers));
    // a notification of all
    lemma_population_splits(run + sleepers, waiters, Seq::empty());
    lemma_multiset_commutative(run, sleepers);
    lemma_empty_population();
    assert(population(run + sleepers, mutex, Seq::empty()) =~= population(run, mutex, sleepers));
}

/// A thread that is scheduled for the first time adds its node to the
/// population, and a thread that leaves the run queue for good takes its
/// node out: the queues hold exactly the nodes of the threads that live.
pub proof fn lemma_population_follows_threads(
    run: Seq<usize>,
    mutex: MutexState,
    sleepers: Seq<usize>,
    node: usize,
)
    ensures
        population(run.push(node), mutex, sleepers) == population(run, mutex, sleepers).insert(
            node,
        ),
        run.len() > 0 ==> population(rest_of(run), mutex, sleepers) == population(
            run,
            mutex,
            sleepers,
        ).remove(run[0]),
{
    lemma_population_splits(run, mutex.waiters, sleepers);
    lemma_population_splits(run.push(node), mutex.waiters, sleepers);
    to_multiset_build(run, node);
    assert(population(run.push(node), mutex, sleepers) =~= population(run, mutex, sleepers).insert(
        node,
    ));
    if run.len() > 0 {
        lemma_population_splits(rest_of(run), mutex.waiters, sleepers);
        lemma_head_and_rest(run);
        assert(population(rest_of(run), mutex, sleepers) =~= population(
            run,
            mutex,
            sleepers,
        ).remove(run[0]));
    }
}

/// The nodes that a request brings into the run queue: the node that it
/// schedules, or the node that its parker sets free.
pub open spec fn brought_in<P>(request: Option<Request<P>>, woken: Option<usize>) -> Multiset<
    usize,
> {
    match request {
        Some(Request::Schedule(node)) => Multiset::singleton(node),
        Some(Request::Unschedule(Some(_))) => match woken {
            Some(node) => Multiset::singleton(node),
            None => Multiset::empty(),
        },
        _ => Multiset::empty(),
    }
}

/// The nodes that a request takes out of the run queue: the head, where the
/// thread asks to be unscheduled or its entry has returned.
pub open spec fn taken_out<P>(run: Seq<usize>, request: Option<Request<P>>) -> Multiset<usize> {
    match request {
        Some(Request::Yield) | Some(Request::Schedule(_)) => Multiset::empty(),
        _ => Multiset::singleton(run[0]),
    }
}

/// The scheduler's own account of the nodes, whatever the parker and however
/// many queues there are beside the run queue. A request changes the run
/// queue by the nodes that it brings in and the one that it takes out, and
/// by no other: the head leaves it only to be handed to the parker or back
/// in the response, one node for one place.
pub proof fn lemma_dispatch_moves_one_node<P>(
    run: Seq<usize>,
    request: Option<Request<P>>,
    woken: Option<usize>,
)
    requires
        run.len() > 0,
    ensures
        queue_after(run, request, woken).to_multiset().add(taken_out(run, request))
            == run.to_multiset().add(brought_in(request, woken)),
        queue_after(run, request, woken).len() + taken_out(run, request).len() == run.len()
            + brought_in(request, woken).len(),
{
    let then: Seq<usize> = queue_after(run, request, woken);
    lemma_head_and_rest(run);
    to_multiset_build(rest_of(run), run[0]);
    match request {
        Some(Request::Schedule(node)) => {
            to_multiset_build(run, node);
        },
        Some(Request::Unschedule(Some(_))) => {
            match woken {
                Some(node) => {
                    to_multiset_build(rest_of(run), node);
                },
                None => {},
            }
        },
        _ => {},
    }
    assert(then.to_multiset().add(taken_out(run, request)) =~= run.to_multiset().add(
        brought_in(request, woken),
    ));
}

/// A thread that is unscheduled stands in the run queue no longer, and no
/// node stands in two queues afterwards. With a lock's parker the node is in
/// the lock's queue; a thread parks on a mutex only when it has found the
/// mutex taken. Without a parker the node is in no queue at all.
pub proof fn lemma_unscheduled_node_leaves_run_queue<Q: Queue>(
    run: Seq<usize>,
    parker: Option<LockParker>,
    before: Monitor<Q>,
    after: Monitor<Q>,
    woken: Option<usize>,
)
    requires
        run.len() > 0,
        in_one_queue(run, before.mutex@, before.condvar@),
        match parker {
            Some(parker) => parker.parks(run[0], before, after, woken) && (parker is Lock
                ==> before.mutex@.taken),
            None => after == before && woken is None,
        },
    ensures
        !queue_after(run, Some(Request::Unschedule(parker)), woken).contains(run[0]),
        in_one_queue(
            queue_after(run, Some(Request::Unschedule(parker)), woken),
            after.mutex@,
            after.condvar@,
        ),
{
    let all: Seq<usize> = run + before.mutex@.waiters + before.condvar@;
    let then: Seq<usize> = queue_after(run, Some(Request::Unschedule(parker)), woken);
    assert(all[0] == run[0]);
    assert forall|i: int| 0 <= i < then.len() implies then[i] != run[0] by {
        if i < run.len() - 1 {
            assert(then[i] == run[i + 1]);
            assert(all[i + 1] == run[i + 1]);
        } else {
            assert(before.mutex@.waiters.len() > 0);
            assert(then[i] == before.mutex@.waiters[0]);
            assert(all[run.len() as int] == before.mutex@.waiters[0]);
        }
    }
    match parker {
        Some(parker) => {
            lemma_park_keeps_population(run, parker, before, after, woken);
            lemma_population_counts(
                run,
                before.mutex@,
                before.condvar@,
                then,
                after.mutex@,
                after.condvar@,
            );
        },
        None => {
            let rest: Seq<usize> = then + before.mutex@.waiters + before.condvar@;
            assert(rest =~= all.skip(1));
            assert forall|i: int, j: int| 0 <= i < rest.len() && 0 <= j < rest.len() && i
                != j implies rest[i] != rest[j] by {
                assert(rest[i] == all[i + 1]);
                assert(rest[j] == all[j + 1]);
            }
        },
    }
}

/// The run queue after the threads `nodes` have been scheduled one after the
/// other.
pub open spec fn after_schedules(run: Seq<usize>, nodes: Seq<usize>) -> Seq<usize>
    decreases nodes.len(),
{
    if nodes.len() == 0 {
        run
    } else {
        queue_after::<LockParker>(
            after_schedules(run, nodes.drop_last()),
            Some(Request::Schedule(nodes.last())),
            None,
        )
    }
}

/// Threads that are woken together run in the order in which they went to
/// sleep: once the requests of a notification of all have been acted on in
/// the order in which they were handed back, the sleepers stand in the run
/// queue behind all the others, the longest-sleeping first.
pub proof fn lemma_woken_together_run_in_order(run: Seq<usize>, sleepers: Seq<usize>)
    ensures
        after_schedules(run, sleepers) == run + sleepers,
    decreases sleepers.len(),
{
    if sleepers.len() > 0 {
        lemma_woken_together_run_in_order(run, sleepers.drop_last());
        assert((run + sleepers.drop_last()).push(sleepers.last()) =~= run + sleepers);
    } else {
        assert(run + sleepers =~= run);
    }
}

} // verus!
