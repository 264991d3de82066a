//! Closed error taxonomy of the wallet core, and its category map: input
//! errors, resource errors, secret errors, transient network errors and
//! consistency errors.

use vstd::prelude::*;

verus! {

/// Everything a wallet-core operation can fail with.
#[derive(Clone, Copy, PartialEq, Eq, Structural, Debug)]
pub enum WalletError {
    /// A transfer intent names a zero amount.
    ZeroAmount,
    /// A transfer intent carries no recipient.
    EmptyIntent,
    /// Spendable funds of the requested token class do not cover the intent.
    InsufficientFunds,
    /// Funds cover the intent, but every possible remainder would fall below
    /// the dust minimum.
    InsufficientFundsForDust,
    /// A requested recipient output lies below the dust minimum.
    DustViolation,
    /// Selection would exceed the protocol limit on inputs per transaction.
    TooManyInputs,
    /// Construction would exceed the protocol limit on outputs per
    /// transaction.
    TooManyOutputs,
    /// An input is already locked or spent by another transfer.
    OutputLocked,
    /// The account does not hold the named output.
    OutputNotFound,
    /// No account with the requested index exists.
    AccountNotFound,
    /// No spendable output carries the requested NFT.
    NftNotFound,
    /// The secret store is locked; callers must unlock first.
    SecretStoreLocked,
    /// The signing backend failed or is unreachable.
    AdapterUnreachable,
    /// The supplied unlock password was rejected.
    WrongPassword,
    /// The ledger node could not be reached.
    NodeUnreachable,
    /// The ledger node rejected the submitted transaction.
    SubmissionRejected,
    /// A double spend against a local pending transaction was observed.
    DoubleSpend,
}

/// The five categories of the error taxonomy.
#[derive(Clone, Copy, PartialEq, Eq, Structural, Debug)]
pub enum ErrorCategory {
    Input,
    Resource,
    Secret,
    TransientNetwork,
    Consistency,
}

/// Category of each error variant.
pub open spec fn spec_category(e: WalletError) -> ErrorCategory {
    match e {
        WalletError::ZeroAmount => ErrorCategory::Input,
        WalletError::EmptyIntent => ErrorCategory::Input,
        WalletError::OutputNotFound => ErrorCategory::Input,
        WalletError::AccountNotFound => ErrorCategory::Input,
        WalletError::InsufficientFunds => ErrorCategory::Resource,
        WalletError::InsufficientFundsForDust => ErrorCategory::Resource,
        WalletError::DustViolation => ErrorCategory::Resource,
        WalletError::TooManyInputs => ErrorCategory::Resource,
        WalletError::TooManyOutputs => ErrorCategory::Resource,
        WalletError::OutputLocked => ErrorCategory::Resource,
        WalletError::NftNotFound => ErrorCategory::Resource,
        WalletError::SecretStoreLocked => ErrorCategory::Secret,
        WalletError::AdapterUnreachable => ErrorCategory::Secret,
        WalletError::WrongPassword => ErrorCategory::Secret,
        WalletError::NodeUnreachable => ErrorCategory::TransientNetwork,
        WalletError::SubmissionRejected => ErrorCategory::TransientNetwork,
        WalletError::DoubleSpend => ErrorCategory::Consistency,
    }
}

impl WalletError {
    /// The taxonomy category this error belongs to.
    pub fn category(&self) -> (r: ErrorCategory)
        ensures
            r == spec_category(*self),
    {
        match self {
            WalletError::ZeroAmount => ErrorCategory::Input,
            WalletError::EmptyIntent => ErrorCategory::Input,
            WalletError::OutputNotFound => ErrorCategory::Input,
            WalletError::AccountNotFound => ErrorCategory::Input,
            WalletError::InsufficientFunds => ErrorCategory::Resource,
            WalletError::InsufficientFundsForDust => ErrorCategory::Resource,
            WalletError::DustViolation => ErrorCategory::Resource,
            WalletError::TooManyInputs => ErrorCategory::Resource,
            WalletError::TooManyOutputs => ErrorCategory::Resource,
            WalletError::OutputLocked => ErrorCategory::Resource,
            WalletError::NftNotFound => ErrorCategory::Resource,
            WalletError::SecretStoreLocked => ErrorCategory::Secret,
            WalletError::AdapterUnreachable => ErrorCategory::Secret,
            WalletError::WrongPassword => ErrorCategory::Secret,
            WalletError::NodeUnreachable => ErrorCategory::TransientNetwork,
            WalletError::SubmissionRejected => ErrorCategory::TransientNetwork,
            WalletError::DoubleSpend => ErrorCategory::Consistency,
        }
    }

    /// Recovery policy: only transient network errors seen while syncing are
    /// retried locally; every other category is surfaced to the caller.
    pub fn retried_during_sync(&self) -> (r: bool)
        ensures
            r == (spec_category(*self) == ErrorCategory::TransientNetwork),
    {
        matches!(self, WalletError::NodeUnreachable | WalletError::SubmissionRejected)
    }
}

} // verus!
