//! Why an operation is rejected.

use vstd::prelude::*;

verus! {

/// Failures of the ledger's own checks and arithmetic.
#[derive(Debug, PartialEq)]
pub enum StdError {
    /// A rule of the engine was broken; `msg` names it.
    GenericErr { msg: String },
    /// A record that an operation relies on is missing; `kind` names it.
    NotFound { kind: String },
    /// An amount or a timestamp left the range of its type.
    Overflow,
}

/// What a `StdError` says, as values.
pub enum StdErrorView {
    GenericErr { msg: Seq<char> },
    NotFound { kind: Seq<char> },
    Overflow,
}

impl View for StdError {
    type V = StdErrorView;

    open spec fn view(&self) -> StdErrorView {
        match self {
            StdError::GenericErr { msg } => StdErrorView::GenericErr { msg: msg@ },
            StdError::NotFound { kind } => StdErrorView::NotFound { kind: kind@ },
            StdError::Overflow => StdErrorView::Overflow,
        }
    }
}

/// Why an operation was rejected.
#[derive(Debug, PartialEq)]
pub enum ContractError {
    Std(StdError),
    /// The caller is not the principal the operation asks for.
    Unauthorized {},
    /// The fee sent is below the fee quoted for the operation.
    InsufficientFees { required: u128, received: u128 },
}

/// What a `ContractError` says, as values.
pub enum ContractErrorView {
    Std(StdErrorView),
    Unauthorized,
    InsufficientFees { required: u128, received: u128 },
}

impl View for ContractError {
    type V = ContractErrorView;

    open spec fn view(&self) -> ContractErrorView {
        match self {
            ContractError::Std(e) => ContractErrorView::Std(e@),
            ContractError::Unauthorized {  } => ContractErrorView::Unauthorized,
            ContractError::InsufficientFees { required, received } => ContractErrorView::InsufficientFees {
                required: *required,
                received: *received,
            },
        }
    }
}

/// The view of a generic error with the given message.
pub open spec fn generic(msg: Seq<char>) -> ContractErrorView {
    ContractErrorView::Std(StdErrorView::GenericErr { msg })
}

/// The view of the error for a missing record of the given kind.
pub open spec fn not_found(kind: Seq<char>) -> ContractErrorView {
    ContractErrorView::Std(StdErrorView::NotFound { kind })
}

/// The view of an arithmetic overflow.
pub open spec fn overflow() -> ContractErrorView {
    ContractErrorView::Std(StdErrorView::Overflow)
}

/// A generic error with the given message.
pub fn generic_err(msg: &str) -> (e: ContractError)
    ensures
        e@ == generic(msg@),
{
    ContractError::Std(StdError::GenericErr { msg: msg.to_owned() })
}

/// The error for a missing record of the given kind.
pub fn not_found_err(kind: &str) -> (e: ContractError)
    ensures
        e@ == not_found(kind@),
{
    ContractError::Std(StdError::NotFound { kind: kind.to_owned() })
}

/// An arithmetic overflow.
pub fn overflow_err() -> (e: ContractError)
    ensures
        e@ == overflow(),
{
    ContractError::Std(StdError::Overflow)
}

} // verus!
