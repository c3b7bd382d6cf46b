//! The reasons why a batch is refused.

use vstd::prelude::*;

verus! {

/// Why an input row cannot be classified as a transaction.
#[derive(Debug, Clone, Copy, PartialEq, Eq, Structural)]
pub enum DataError {
    /// A deposit or withdrawal row carries no amount.
    MissingAmount,
    /// A deposit or withdrawal row carries an amount below zero.
    NegativeAmount,
    /// The row's type is none of the five known ones.
    UnknownType,
}

} // verus!
