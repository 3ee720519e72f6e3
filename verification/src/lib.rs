//! A cooperative, allocation-light threading core: the scheduler's request
//! protocol, the current-thread slot, and the blocking locks built on them.
//!
//! Threads are known to this crate by one machine word each, the word that
//! the current-thread slot holds while the thread runs. The stack switches
//! themselves are left to the embedding program.

pub mod arch;
pub mod scheduler;
pub mod script;
pub mod basic;
pub mod lock;
