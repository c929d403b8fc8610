use vstd::prelude::*;

verus! {

/// A failure reported by the backing store.
#[derive(Clone, Copy, Debug, PartialEq, Eq, Structural)]
pub enum StorageFailure {
    /// A primary key or unique pair is already taken, or is written twice by one statement.
    DuplicateKey,
    /// A foreign key names a row that does not exist.
    MissingReference,
    /// An update matched no row.
    RecordNotUpdated,
    /// Any other failure of the store, such as a lost connection.
    Unavailable,
}

/// A storage failure inside a multi-statement atomic unit: nothing of the unit was kept.
#[derive(Clone, Copy, Debug, PartialEq, Eq, Structural)]
pub struct TransactionFailure {
    pub cause: StorageFailure,
}

} // verus!
