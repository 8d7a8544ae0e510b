//! The cooperative cancellation flag that a miner shares with whoever may
//! stop it.

use std::sync::atomic::{AtomicBool, Ordering};
use std::sync::Arc;
use vstd::prelude::*;

verus! {

/// A flag that is not raised.
pub(crate) fn new_flag() -> Arc<AtomicBool> {
    Arc::new(AtomicBool::new(false))
}

/// Whether the flag is raised at this moment.
pub(crate) fn is_raised(flag: &Arc<AtomicBool>) -> bool {
    flag.load(Ordering::Relaxed)
}

/// Raises or lowers the flag.
pub(crate) fn set_raised(flag: &Arc<AtomicBool>, raised: bool) {
    flag.store(raised, Ordering::Relaxed);
}

/// `Arc::clone`: another pointer to the same allocation, so that what the
/// result points to is the flag that `flag` points to.
#[verifier::external_body]
pub(crate) fn share(flag: &Arc<AtomicBool>) -> (r: Arc<AtomicBool>)
    ensures
        r == *flag,
{
    Arc::clone(flag)
}

} // verus!
