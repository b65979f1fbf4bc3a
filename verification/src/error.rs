use vstd::prelude::*;

verus! {

/// The recoverable failures of the operations on a transaction set.
#[derive(Clone, Copy, Debug, PartialEq, Eq, Structural)]
pub enum TransactionsError {
    /// A transaction that fails its own validity predicate was offered to `push`.
    InvalidTransaction,
    /// The members that an aggregate is taken over do not exist.
    MalformedAggregate,
    /// The accumulator did not produce a root for the given leaves.
    Accumulator,
    /// The bytes do not hold what the declared count promises.
    DecodeError,
}

/// Why a transaction set is not acceptable for inclusion in a block.
#[derive(Clone, Copy, Debug, PartialEq, Eq, Structural)]
pub enum Rejection {
    /// The set has no members.
    Empty,
    /// Some member fails its own validity predicate.
    InvalidMember,
    /// A serial number occurs twice among the members.
    DuplicateSerialNumbers,
    /// A commitment occurs twice among the members.
    DuplicateCommitments,
    /// The number of value-creating members is not the one the network asks for.
    CoinbaseCount { expected: usize, found: usize },
}

} // verus!
