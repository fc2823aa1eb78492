use vstd::prelude::*;

verus! {

/// Internal unrecoverable system error.
#[derive(Debug, Clone, Copy, PartialEq, Eq, Structural)]
pub enum SystemError {
    FileAlloc,
    MmapFail,
    MmapMismatchAddr,
    ArrayAllocatorOutOfMemory,
}

/// Why a transaction step could not go on.
#[derive(Debug, Clone, Copy, PartialEq, Eq, Structural)]
pub enum TransactionError {
    /// failed to acquire read lock
    ReadLockBusy,
    /// failed to acquire write lock
    WriteLockBusy,
    /// failed to upgrade lock
    UpgradeLockBusy,
    /// failed to find the key in index
    IndexNotFound,
    /// failed to modify the lock, maybe someone is acquiring it
    LockBusy,
    /// user aborted the transaction
    UserAbort,
}

impl TransactionError {
    /// The numeric code of the error, in declaration order.
    pub fn code(&self) -> (r: u8)
        ensures
            r == self.spec_code(),
    {
        match self {
            TransactionError::ReadLockBusy => 0,
            TransactionError::WriteLockBusy => 1,
            TransactionError::UpgradeLockBusy => 2,
            TransactionError::IndexNotFound => 3,
            TransactionError::LockBusy => 4,
            TransactionError::UserAbort => 5,
        }
    }

    pub open spec fn spec_code(self) -> u8 {
        match self {
            TransactionError::ReadLockBusy => 0,
            TransactionError::WriteLockBusy => 1,
            TransactionError::UpgradeLockBusy => 2,
            TransactionError::IndexNotFound => 3,
            TransactionError::LockBusy => 4,
            TransactionError::UserAbort => 5,
        }
    }

    /// The message the error is displayed with.
    pub open spec fn spec_message(&self) -> Seq<char> {
        match self {
            TransactionError::ReadLockBusy => "failed to acquire read lock"@,
            TransactionError::WriteLockBusy => "failed to acquire write lock"@,
            TransactionError::UpgradeLockBusy => "failed to upgrade lock"@,
            TransactionError::IndexNotFound => "failed to find the key in index"@,
            TransactionError::LockBusy => "failed to modify the lock, maybe someone is acquiring it"@,
            TransactionError::UserAbort => "user aborted the transaction"@,
        }
    }

    pub fn message(&self) -> (r: &'static str)
        ensures
            r@ == self.spec_message(),
    {
        match self {
            TransactionError::ReadLockBusy => "failed to acquire read lock",
            TransactionError::WriteLockBusy => "failed to acquire write lock",
            TransactionError::UpgradeLockBusy => "failed to upgrade lock",
            TransactionError::IndexNotFound => "failed to find the key in index",
            TransactionError::LockBusy => "failed to modify the lock, maybe someone is acquiring it",
            TransactionError::UserAbort => "user aborted the transaction",
        }
    }
}

} // verus!
