//! What the owner of an event loop tells it.
use vstd::prelude::*;
use crate::utils::UtilError;

verus! {

/// The owner of an event loop: it decides when the loop exits, and cleans up
/// before it does.
pub trait EventLoopManager: Send + Sync {
    fn loop_should_exit(&self) -> bool;
    fn loop_cleanup(&self) -> Result<(), UtilError>;
}

} // verus!
