//! Cooperative cancellation for blocking storage operations.
use crate::error::StorageError;
use std::sync::atomic::{AtomicBool, Ordering};
use std::sync::Arc;
use vstd::prelude::*;

verus! {

/// Sticky cancellation flag shared between an operation's caller and the
/// code doing the blocking work. Cheap to clone. A cancelled token stays
/// cancelled forever: to resume, make a fresh token.
#[derive(Clone, Debug)]
pub struct CancelToken(Arc<AtomicBool>);

impl Default for CancelToken {
    fn default() -> CancelToken {
        CancelToken::new()
    }
}

/// What an observer does about a flag it read.
pub fn check_flag(cancelled: bool) -> (r: Result<(), StorageError>)
    ensures
        cancelled ==> r == Err::<(), StorageError>(StorageError::Cancelled),
        !cancelled ==> r is Ok,
{
    if cancelled {
        Err(StorageError::Cancelled)
    } else {
        Ok(())
    }
}

impl CancelToken {
    /// A token that nobody has cancelled yet.
    pub fn new() -> CancelToken {
        CancelToken(Arc::new(AtomicBool::new(false)))
    }

    /// Requests cancellation. Idempotent; observers see it on their next
    /// [`CancelToken::check`] or [`CancelToken::is_cancelled`].
    pub fn cancel(&self) {
        self.0.store(true, Ordering::Relaxed);
    }

    /// Reads the flag. Any holder of the token may set it at any time, so no
    /// more is said of the reading than that it is one.
    pub fn is_cancelled(&self) -> bool {
        self.0.load(Ordering::Relaxed)
    }

    /// [`StorageError::Cancelled`] once cancelled, for use at an operation's
    /// checkpoints. What the flag holds is decided by other threads; the
    /// answer for each value of it is [`check_flag`]'s.
    pub fn check(&self) -> (r: Result<(), StorageError>)
        ensures
            r matches Err(e) ==> e is Cancelled,
    {
        check_flag(self.is_cancelled())
    }
}

} // verus!
