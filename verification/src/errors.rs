use vstd::prelude::*;

verus! {

/// Failure kinds of the ledger engine.
///
/// `InsufficientBalance` and `InvalidSignature` abort a spend and are
/// reported to the caller.  `HashMismatch` and `MalformedRecord` describe
/// records that are excluded from coin selection rather than surfaced.
/// `SpendConflict` is the rejection of an atomic write that would consume
/// an output which is missing or already spent.  `StoreUnavailable` stands
/// for an I/O failure at the store boundary.
#[derive(Clone, Copy, Debug, PartialEq, Eq, Structural)]
pub enum LedgerError {
    InsufficientBalance,
    InvalidSignature,
    HashMismatch,
    MalformedRecord,
    SpendConflict,
    StoreUnavailable,
}

} // verus!
