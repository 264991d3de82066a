//! Signing pipeline: `Building -> AwaitingUnlock -> Signing -> Submitting ->
//! Pending -> {Confirmed | Failed}`.  The pipeline fails fast when the
//! secret store is locked, and any failure between input reservation and
//! submission releases every reserved input back to unspent.  The secret
//! store adapter and the node submission run outside the crate; the pipeline
//! consumes their outcomes as events.

use vstd::prelude::*;

use crate::account::AccountState;
use crate::account::spec_fail_tx;
use crate::account::spec_release;
use crate::types::txs_view;

verus! {

/// Stage of one transfer's signing pipeline.
#[derive(Clone, Copy, PartialEq, Eq, Structural, Debug)]
pub enum PipelineState {
    /// Selecting inputs and constructing the essence.
    Building,
    /// Essence ready; the secret store's freshness gate comes next.
    AwaitingUnlock,
    /// The secret store adapter is producing signatures.
    Signing,
    /// The signed transaction is being handed to the node.
    Submitting,
    /// Submitted; awaiting ledger confirmation via sync.
    Pending,
    /// The ledger executed the transaction.
    Confirmed,
    /// The pipeline failed; all reserved inputs were released.
    Failed,
}

/// Outcome of the step a pipeline stage was waiting on.
#[derive(Clone, Copy, PartialEq, Eq, Structural, Debug)]
pub enum PipelineEvent {
    /// The essence was built and its inputs reserved.
    EssenceReady,
    /// The secret store is unlocked and fresh.
    UnlockFresh,
    /// The secret store is locked: fail fast, do not block.
    UnlockMissing,
    /// The adapter returned signatures for every input owner.
    SignaturesProduced,
    /// The adapter failed or is unreachable.
    AdapterFailed,
    /// The node accepted the submission.
    SubmissionAccepted,
    /// The node rejected the submission or was unreachable.
    SubmissionFailed,
    /// Sync observed the transaction executed on the ledger.
    LedgerConfirmed,
    /// Sync observed a double spend against the transaction.
    LedgerInvalidated,
}

/// The pipeline's transition relation; an event that does not belong to the
/// current stage changes nothing.
pub open spec fn spec_step(s: PipelineState, e: PipelineEvent) -> PipelineState {
    match (s, e) {
        (PipelineState::Building, PipelineEvent::EssenceReady) => PipelineState::AwaitingUnlock,
        (PipelineState::AwaitingUnlock, PipelineEvent::UnlockFresh) => PipelineState::Signing,
        (PipelineState::AwaitingUnlock, PipelineEvent::UnlockMissing) => PipelineState::Failed,
        (PipelineState::Signing, PipelineEvent::SignaturesProduced) => PipelineState::Submitting,
        (PipelineState::Signing, PipelineEvent::AdapterFailed) => PipelineState::Failed,
        (PipelineState::Submitting, PipelineEvent::SubmissionAccepted) => PipelineState::Pending,
        (PipelineState::Submitting, PipelineEvent::SubmissionFailed) => PipelineState::Failed,
        (PipelineState::Pending, PipelineEvent::LedgerConfirmed) => PipelineState::Confirmed,
        (PipelineState::Pending, PipelineEvent::LedgerInvalidated) => PipelineState::Failed,
        _ => s,
    }
}

/// The transitions that abandon a reservation: a failure between the
/// freshness gate and submission.  (A later ledger invalidation is resolved
/// by the sync diff itself, not by the pipeline.)
pub open spec fn releases_locks(s: PipelineState, e: PipelineEvent) -> bool {
    ||| (s is AwaitingUnlock && e is UnlockMissing)
    ||| (s is Signing && e is AdapterFailed)
    ||| (s is Submitting && e is SubmissionFailed)
}

/// One transition of the pipeline state machine.
pub fn step(s: PipelineState, e: PipelineEvent) -> (r: PipelineState)
    ensures
        r == spec_step(s, e),
{
    match (s, e) {
        (PipelineState::Building, PipelineEvent::EssenceReady) => PipelineState::AwaitingUnlock,
        (PipelineState::AwaitingUnlock, PipelineEvent::UnlockFresh) => PipelineState::Signing,
        (PipelineState::AwaitingUnlock, PipelineEvent::UnlockMissing) => PipelineState::Failed,
        (PipelineState::Signing, PipelineEvent::SignaturesProduced) => PipelineState::Submitting,
        (PipelineState::Signing, PipelineEvent::AdapterFailed) => PipelineState::Failed,
        (PipelineState::Submitting, PipelineEvent::SubmissionAccepted) => PipelineState::Pending,
        (PipelineState::Submitting, PipelineEvent::SubmissionFailed) => PipelineState::Failed,
        (PipelineState::Pending, PipelineEvent::LedgerConfirmed) => PipelineState::Confirmed,
        (PipelineState::Pending, PipelineEvent::LedgerInvalidated) => PipelineState::Failed,
        (other, _) => other,
    }
}

/// Advance the pipeline of local transaction `tx_id` and keep the account
/// consistent with it: a failing transition releases every input the
/// transaction had reserved and marks its record failed; any other
/// transition leaves the account untouched.
pub fn advance(
    account: &mut AccountState,
    tx_id: u64,
    s: PipelineState,
    e: PipelineEvent,
) -> (r: PipelineState)
    requires
        old(account).wf(),
    ensures
        r == spec_step(s, e),
        final(account).wf(),
        releases_locks(s, e) ==> final(account).outputs@ == spec_release(
            old(account).outputs@,
            tx_id,
        ) && txs_view(final(account).transactions@) == spec_fail_tx(
            txs_view(old(account).transactions@),
            tx_id,
        ),
        !releases_locks(s, e) ==> *final(account) == *old(account),
{
    let fails = matches!(
        (s, e),
        (PipelineState::AwaitingUnlock, PipelineEvent::UnlockMissing)
        | (PipelineState::Signing, PipelineEvent::AdapterFailed)
        | (PipelineState::Submitting, PipelineEvent::SubmissionFailed)
    );
    if fails {
        account.apply_transaction_result(tx_id, false);
    }
    step(s, e)
}

} // verus!
