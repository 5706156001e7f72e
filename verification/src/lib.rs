//! Event-loop bookkeeping and interrupt routing for a small virtual machine monitor.
use vstd::prelude::*;

pub mod bitmap;
pub mod clock;
pub mod error;
pub mod event_context;
pub mod event_loop;
pub mod event_notifier;
pub mod interrupt;
pub mod sys;
pub mod timer;
pub mod utils;

verus! {

} // verus!
