use vstd::prelude::*;

verus! {

/// The state of the encrypted storage.
#[derive(Debug, Clone, Copy, PartialEq, Eq, Structural)]
pub enum StorageState {
    /// No master key was ever made.
    Uninitialized,
    /// A master key exists, but the storage is not unlocked.
    Sealed,
    /// The storage is unlocked.
    Unsealed,
}

/// The storage state the server starts in: sealed when an encrypted storage
/// backup was found in the replica or the seal database already exists,
/// uninitialized otherwise.
pub fn initial_storage_state(encrypted_backup_found: bool, seal_db_exists: bool) -> (r: StorageState)
    ensures
        r == (if encrypted_backup_found || seal_db_exists {
            StorageState::Sealed
        } else {
            StorageState::Uninitialized
        }),
{
    let mut state = StorageState::Uninitialized;
    if encrypted_backup_found {
        state = StorageState::Sealed;
    }
    if seal_db_exists {
        state = StorageState::Sealed;
    }
    state
}

/// The limits the server puts on requests.
#[derive(Debug, Clone, Copy, PartialEq, Eq, Structural)]
pub struct ServerLimits {
    /// Requests handled at the same time.
    pub concurrency: usize,
    /// Time a request may take, in milliseconds.
    pub timeout: u64,
    /// Largest request body, in bytes.
    pub body_limit: usize,
}

impl ServerLimits {
    /// The limits the server runs with.
    pub fn new() -> (r: Self)
        ensures
            r.concurrency == 1000,
            r.timeout == 30000,
            r.body_limit == 16384,
    {
        ServerLimits { concurrency: 1000, timeout: 30000, body_limit: 16384 }
    }
}

} // verus!
