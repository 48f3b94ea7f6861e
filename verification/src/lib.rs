//! Deadlock avoidance for binary locks: a Banker's-Algorithm safety oracle,
//! the resource ledger it decides on, and the bookkeeping steps of the
//! lock-acquisition path that consult it.

pub mod detector;
pub mod laws;
pub mod ledger;
pub mod process;
pub mod registry;
pub mod safety;
pub mod syscall;
pub mod task;
