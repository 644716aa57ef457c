use vstd::prelude::*;

verus! {

/// The arithmetic operation that left the range of its type.
#[derive(Clone, Copy, Debug, PartialEq, Eq, Structural)]
pub enum OverflowOperation {
    Add,
    Sub,
}

/// An addition or subtraction on token amounts whose result does not fit.
#[derive(Clone, Copy, Debug, PartialEq, Eq, Structural)]
pub struct OverflowError {
    pub operation: OverflowOperation,
    pub operand1: u128,
    pub operand2: u128,
}

impl OverflowError {
    pub fn new(operation: OverflowOperation, operand1: u128, operand2: u128) -> (r: OverflowError)
        ensures
            r == (OverflowError { operation, operand1, operand2 }),
    {
        OverflowError { operation, operand1, operand2 }
    }
}

/// Every way in which a bond, unbond or claim can be refused.
///
/// A refused operation leaves the state exactly as it was.
#[derive(Clone, Debug, PartialEq, Eq)]
pub enum ContractError {
    /// A token amount left the range of `u128`; unbonding more than the stake
    /// is reported as a subtraction overflow.
    Overflow(OverflowError),
    /// A bond came with no coins at all.
    NoFunds,
    /// A bond came with a single coin of another denomination.
    MissingDenom(String),
    /// A bond came with more than one coin.
    ExtraDenoms(String),
    /// A bond came from a token contract other than the staked one.
    InvalidDenom(String),
    /// Native coins were sent where a token contract was expected, or the reverse.
    MixedNativeAndCw20(String),
    /// A claim found no mature entry.
    NothingToClaim,
    /// A weight, or the total weight, does not fit in `u64`.
    WeightOverflow,
    /// Stored bytes that should hold a number do not.
    CorruptedDataFound,
}

} // verus!
