//! Secret lifecycle, scheduler, error taxonomy and the message interface.

use iota_wallet::account::AccountState;
use iota_wallet::dispatcher::dispatch;
use iota_wallet::dispatcher::dispatch_account_method;
use iota_wallet::dispatcher::AccountMethod;
use iota_wallet::dispatcher::Message;
use iota_wallet::dispatcher::Wallet;
use iota_wallet::error::ErrorCategory;
use iota_wallet::error::WalletError;
use iota_wallet::response::Response;
use iota_wallet::scheduler::BackgroundScheduler;
use iota_wallet::secret::SecretLifecycle;
use iota_wallet::sync::retry_decision;
use iota_wallet::sync::RetryPolicy;
use iota_wallet::types::OutputData;
use iota_wallet::types::OutputId;
use iota_wallet::types::OutputStatus;
use iota_wallet::types::BASE_TOKEN;

fn out(tx: u64, idx: u16, addr: u64, amount: u64, token: u64) -> OutputData {
    OutputData {
        id: OutputId { tx_id: tx, index: idx },
        address: addr,
        amount,
        token,
        nft: None,
        status: OutputStatus::Unspent,
    }
}

fn funded_account(outputs: Vec<OutputData>) -> AccountState {
    let mut acc = AccountState::new_account(0);
    acc.apply_sync_diff(&outputs, &Vec::new());
    acc
}

#[test]
fn auto_clear_locks_the_store_after_idle() {
    let mut secret = SecretLifecycle::new(1000);
    secret.unlock(b"correct horse".to_vec(), 5000);
    assert!(secret.is_unlocked(5000));
    assert!(secret.is_unlocked(6000));
    // longer than the configured auto-clear duration without a touch
    assert!(!secret.is_unlocked(6001));
    // a signing attempt after the idle window fails with the locked-store
    // condition
    assert_eq!(secret.begin_signing(6001), Err(WalletError::SecretStoreLocked));
    secret.maybe_auto_clear(6001);
    assert!(!secret.is_unlocked(6001));
}

#[test]
fn touch_rearms_the_idle_timer() {
    let mut secret = SecretLifecycle::new(1000);
    secret.unlock(b"pw".to_vec(), 0);
    secret.touch(900);
    // the window now runs from the touch, not from the unlock
    assert!(secret.is_unlocked(1900));
    assert!(!secret.is_unlocked(1901));
    // touching an already-expired store does not revive it
    secret.touch(5000);
    assert!(!secret.is_unlocked(5000));
    assert_eq!(secret.begin_signing(5000), Err(WalletError::SecretStoreLocked));
}

#[test]
fn explicit_lock_clears_immediately() {
    let mut secret = SecretLifecycle::new(1000);
    secret.unlock(b"pw".to_vec(), 0);
    assert!(secret.is_password_available(0));
    secret.lock();
    assert!(!secret.is_password_available(0));
    assert_eq!(secret.begin_signing(0), Err(WalletError::SecretStoreLocked));
}

#[test]
fn fresh_store_signs() {
    let mut secret = SecretLifecycle::new(1000);
    secret.unlock(b"pw".to_vec(), 100);
    assert_eq!(secret.begin_signing(600), Ok(()));
}

#[test]
fn clear_interval_is_configurable() {
    let mut secret = SecretLifecycle::new(1000);
    secret.unlock(b"pw".to_vec(), 0);
    secret.set_clear_interval(10);
    assert!(secret.is_unlocked(10));
    assert!(!secret.is_unlocked(11));
}

#[test]
fn scheduler_start_and_stop_are_idempotent() {
    let mut s = BackgroundScheduler::new(60_000);
    s.start(10);
    let after_first = s;
    s.start(999);
    assert_eq!(s, after_first);
    assert!(s.running);
    s.stop();
    let stopped = s;
    s.stop();
    assert_eq!(s, stopped);
    assert!(!s.running);
}

#[test]
fn scheduler_is_due_after_interval() {
    let mut s = BackgroundScheduler::new(100);
    s.start(0);
    assert!(!s.is_due(50));
    assert!(s.is_due(100));
    s.record_run(100);
    assert!(!s.is_due(150));
    assert!(s.is_due(200));
    s.stop();
    assert!(!s.is_due(500));
}

#[test]
fn retry_decision_is_bounded_with_growing_backoff() {
    let policy = RetryPolicy { max_attempts: 3, backoff_ms: 250 };
    assert_eq!(retry_decision(0, &policy), Some(250));
    assert_eq!(retry_decision(1, &policy), Some(500));
    assert_eq!(retry_decision(2, &policy), Some(750));
    assert_eq!(retry_decision(3, &policy), None);
}

#[test]
fn error_categories_follow_the_taxonomy() {
    assert_eq!(WalletError::ZeroAmount.category(), ErrorCategory::Input);
    assert_eq!(WalletError::EmptyIntent.category(), ErrorCategory::Input);
    assert_eq!(WalletError::OutputNotFound.category(), ErrorCategory::Input);
    assert_eq!(WalletError::AccountNotFound.category(), ErrorCategory::Input);
    assert_eq!(WalletError::InsufficientFunds.category(), ErrorCategory::Resource);
    assert_eq!(WalletError::InsufficientFundsForDust.category(), ErrorCategory::Resource);
    assert_eq!(WalletError::DustViolation.category(), ErrorCategory::Resource);
    assert_eq!(WalletError::TooManyInputs.category(), ErrorCategory::Resource);
    assert_eq!(WalletError::TooManyOutputs.category(), ErrorCategory::Resource);
    assert_eq!(WalletError::OutputLocked.category(), ErrorCategory::Resource);
    assert_eq!(WalletError::NftNotFound.category(), ErrorCategory::Resource);
    assert_eq!(WalletError::SecretStoreLocked.category(), ErrorCategory::Secret);
    assert_eq!(WalletError::AdapterUnreachable.category(), ErrorCategory::Secret);
    assert_eq!(WalletError::WrongPassword.category(), ErrorCategory::Secret);
    assert_eq!(WalletError::NodeUnreachable.category(), ErrorCategory::TransientNetwork);
    assert_eq!(WalletError::SubmissionRejected.category(), ErrorCategory::TransientNetwork);
    assert_eq!(WalletError::DoubleSpend.category(), ErrorCategory::Consistency);
}

#[test]
fn only_transient_sync_errors_are_retried() {
    assert!(WalletError::NodeUnreachable.retried_during_sync());
    assert!(WalletError::SubmissionRejected.retried_during_sync());
    assert!(!WalletError::InsufficientFunds.retried_during_sync());
    assert!(!WalletError::SecretStoreLocked.retried_during_sync());
    assert!(!WalletError::DoubleSpend.retried_during_sync());
}

#[test]
fn mnemonic_rendering_is_redacted() {
    let secret_words = "legal winner thank year wave sausage worth useful legal winner thank yellow";
    let r = Response::GeneratedMnemonic(secret_words.to_string());
    let label = r.debug_label();
    assert_eq!(label, "GeneratedMnemonic(<omitted>)");
    assert!(!label.contains("legal"));
    assert!(!label.contains(secret_words));
}

#[test]
fn other_responses_render_their_kind() {
    assert_eq!(Response::StrongholdPasswordIsAvailable(true).debug_label(),
        "StrongholdPasswordIsAvailable");
    assert_eq!(Response::Error(WalletError::ZeroAmount).debug_label(), "Error");
    assert_eq!(Response::Panic("boom".to_string()).debug_label(), "Panic");
    assert_eq!(Response::Acknowledged.debug_label(), "Acknowledged");
}

#[test]
fn wallet_dispatch_routes_every_request_kind() {
    let mut w = Wallet::new(1000, 60_000);
    match dispatch(&mut w, Message::CreateAccount, 0) {
        Response::Account(a) => assert_eq!(a.index, 0),
        other => panic!("unexpected response {:?}", other.debug_label()),
    }
    match dispatch(&mut w, Message::CreateAccount, 0) {
        Response::Account(a) => assert_eq!(a.index, 1),
        other => panic!("unexpected response {:?}", other.debug_label()),
    }
    match dispatch(&mut w, Message::GetAccounts, 0) {
        Response::Accounts(v) => assert_eq!(v.len(), 2),
        other => panic!("unexpected response {:?}", other.debug_label()),
    }
    match dispatch(&mut w, Message::GetAccount(5), 0) {
        Response::Error(e) => assert_eq!(e, WalletError::AccountNotFound),
        other => panic!("unexpected response {:?}", other.debug_label()),
    }
    assert!(matches!(
        dispatch(&mut w, Message::SetStrongholdPassword(b"pw".to_vec()), 10),
        Response::Acknowledged
    ));
    match dispatch(&mut w, Message::IsStrongholdPasswordAvailable, 20) {
        Response::StrongholdPasswordIsAvailable(b) => assert!(b),
        other => panic!("unexpected response {:?}", other.debug_label()),
    }
    assert!(matches!(
        dispatch(&mut w, Message::ClearStrongholdPassword, 30),
        Response::Acknowledged
    ));
    match dispatch(&mut w, Message::IsStrongholdPasswordAvailable, 30) {
        Response::StrongholdPasswordIsAvailable(b) => assert!(!b),
        other => panic!("unexpected response {:?}", other.debug_label()),
    }
    assert!(matches!(dispatch(&mut w, Message::StartBackgroundSync, 0), Response::Acknowledged));
    assert!(w.scheduler.running);
    assert!(matches!(dispatch(&mut w, Message::StopBackgroundSync, 0), Response::Acknowledged));
    assert!(!w.scheduler.running);
    match dispatch(&mut w, Message::CallAccountMethod(0, AccountMethod::GetBalance), 0) {
        Response::Balance(b) => assert_eq!(b.base, 0),
        other => panic!("unexpected response {:?}", other.debug_label()),
    }
}

#[test]
fn dispatcher_serves_balance_and_outputs() {
    let mut acc = funded_account(vec![
        out(1, 0, 7, 100, BASE_TOKEN),
        out(1, 1, 7, 25, 4),
        out(2, 0, 8, 30, BASE_TOKEN),
    ]);
    let ids = vec![OutputId { tx_id: 2, index: 0 }];
    acc.reserve_inputs(&ids).expect("reserved");

    match dispatch_account_method(&acc, &AccountMethod::GetBalance) {
        Response::Balance(b) => {
            assert_eq!(b.base, 100);
            assert_eq!(b.tokens.len(), 1);
            assert_eq!(b.tokens[0].token, 4);
            assert_eq!(b.tokens[0].amount, 25);
        },
        other => panic!("unexpected response {:?}", other.debug_label()),
    }
    match dispatch_account_method(&acc, &AccountMethod::ListUnspentOutputs) {
        Response::Outputs(v) => {
            // the locked output is not spendable
            assert_eq!(v.len(), 2);
            assert!(v.iter().all(|o| o.status == OutputStatus::Unspent));
        },
        other => panic!("unexpected response {:?}", other.debug_label()),
    }
    match dispatch_account_method(&acc, &AccountMethod::GetOutput(OutputId { tx_id: 1, index: 1 }))
    {
        Response::Output(Some(o)) => assert_eq!(o.amount, 25),
        other => panic!("unexpected response {:?}", other.debug_label()),
    }
    match dispatch_account_method(&acc, &AccountMethod::GetOutput(OutputId { tx_id: 9, index: 0 }))
    {
        Response::Output(None) => {},
        other => panic!("unexpected response {:?}", other.debug_label()),
    }
    match dispatch_account_method(&acc, &AccountMethod::ListTransactions) {
        Response::Transactions(v) => assert_eq!(v.len(), 1),
        other => panic!("unexpected response {:?}", other.debug_label()),
    }
}
