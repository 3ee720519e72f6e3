//! The per-context state that stack switches depend on: the word naming the
//! running thread, and the flag that holds preemption off.

use vstd::prelude::*;

verus! {

/// What one execution context keeps for the scheduler.
pub struct Slot {
    /// The word naming the thread that runs now; zero before any thread ran.
    pub current: usize,
    /// Whether preemption is held off.
    pub no_preempt: bool,
}

impl Slot {
    /// The slot inside a no-preemption region.
    pub open spec fn entered(self) -> Slot {
        Slot { current: self.current, no_preempt: true }
    }

    /// The slot after a region that found the flag at `before`.
    pub open spec fn left(self, before: bool) -> Slot {
        Slot { current: self.current, no_preempt: before }
    }

    /// A fresh context: no thread has run, preemption is allowed.
    pub fn new() -> (slot: Slot)
        ensures
            slot.current == 0,
            !slot.no_preempt,
    {
        Slot { current: 0, no_preempt: false }
    }
}

/// The word stored for the running thread.
pub fn get(slot: &Slot) -> (word: usize)
    ensures
        word == slot.current,
{
    slot.current
}

/// Replaces the word stored for the running thread; the flag is untouched.
pub fn set(slot: &mut Slot, value: usize)
    ensures
        final(slot).current == value,
        final(slot).no_preempt == old(slot).no_preempt,
{
    slot.current = value;
}

/// Holds preemption off and hands back the flag as it stood before.
pub fn no_preempt_start(slot: &mut Slot) -> (before: bool)
    ensures
        before == old(slot).no_preempt,
        *final(slot) == old(slot).entered(),
{
    let before: bool = slot.no_preempt;
    slot.no_preempt = true;
    before
}

/// Puts the flag back to `before`, the value that `no_preempt_start` returned.
pub fn no_preempt_end(slot: &mut Slot, before: bool)
    ensures
        *final(slot) == old(slot).left(before),
{
    slot.no_preempt = before;
}

/// The token of one no-preemption region. It remembers the flag that the
/// region found, and `release` puts that flag back.
pub struct Guard {
    result: bool,
}

impl Guard {
    /// The flag that the region found on entry.
    pub closed spec fn before(&self) -> bool {
        self.result
    }

    /// Leaves the region: the flag is what it was when the region began.
    pub fn release(self, slot: &mut Slot)
        ensures
            *final(slot) == old(slot).left(self.before()),
    {
        no_preempt_end(slot, self.result);
    }
}

/// The slot as a thread sees it: the same state, with regions as guards.
pub struct Arch {
    slot: Slot,
}

impl View for Arch {
    type V = Slot;

    closed spec fn view(&self) -> Slot {
        self.slot
    }
}

impl Arch {
    /// A fresh context.
    pub fn new() -> (arch: Arch)
        ensures
            arch@.current == 0,
            !arch@.no_preempt,
    {
        Arch { slot: Slot::new() }
    }

    /// Enters a no-preemption region.
    pub fn no_preempt(&mut self) -> (guard: Guard)
        ensures
            guard.before() == old(self)@.no_preempt,
            final(self)@ == old(self)@.entered(),
    {
        Guard { result: no_preempt_start(&mut self.slot) }
    }

    /// Leaves the region that `guard` stands for.
    pub fn end_no_preempt(&mut self, guard: Guard)
        ensures
            final(self)@ == old(self)@.left(guard.before()),
    {
        guard.release(&mut self.slot);
    }

    /// The running thread's word.
    pub fn get(&self) -> (word: usize)
        ensures
            word == self@.current,
    {
        get(&self.slot)
    }

    /// Names `value` as the running thread.
    pub fn set(&mut self, value: usize)
        ensures
            final(self)@.current == value,
            final(self)@.no_preempt == old(self)@.no_preempt,
    {
        set(&mut self.slot, value);
    }
}

/// A region restores what it found: leaving with the flag that entering
/// handed back puts the slot back as it was, and so do regions inside
/// regions, left in the reverse order.
pub proof fn lemma_region_restores(slot: Slot)
    ensures
        slot.entered().left(slot.no_preempt) == slot,
        slot.entered().entered().left(slot.entered().no_preempt).left(slot.no_preempt) == slot,
{
}

} // verus!
