use vstd::prelude::*;

verus! {

/// A lock to take on a file under the directory's root.
#[derive(Debug)]
pub struct Lock {
    /// The lock file's path, relative to the root.
    pub filepath: String,
    /// Whether to wait until the lock is free, rather than fail at once.
    pub is_blocking: bool,
}

/// Why a lock could not be taken.
#[derive(Debug)]
pub enum LockError {
    /// Someone else holds the lock.
    LockBusy,
    /// The lock file could not be opened or locked.
    IoError(std::io::Error),
}

impl LockError {
    pub fn wrap_io_error(io_error: std::io::Error) -> (r: LockError)
        ensures
            r == LockError::IoError(io_error),
    {
        LockError::IoError(io_error)
    }
}

/// What one attempt to lock an opened lock file came to.
#[derive(Debug)]
pub enum LockAttempt {
    /// The lock is now held.
    Acquired,
    /// Another holder has the lock.
    Contended,
    /// The attempt failed for another reason.
    Failed(std::io::Error),
}

impl Lock {
    /// The result of acquiring this lock, given what the attempt on the lock
    /// file came to. Contention is reported as busy, apart from I/O failures.
    pub fn attempt_result(&self, attempt: LockAttempt) -> (r: Result<(), LockError>)
        ensures
            match attempt {
                LockAttempt::Acquired => r is Ok,
                LockAttempt::Contended => r matches Err(LockError::LockBusy),
                LockAttempt::Failed(e) => r == Err::<(), LockError>(LockError::IoError(e)),
            },
    {
        match attempt {
            LockAttempt::Acquired => Ok(()),
            LockAttempt::Contended => Err(LockError::LockBusy),
            LockAttempt::Failed(e) => Err(LockError::wrap_io_error(e)),
        }
    }
}

} // verus!
