//! Transfer building and the signing pipeline: selection scenarios, dust
//! protection, protocol limits, exactly-once locking, and lock release on
//! failure.

use iota_wallet::account::AccountState;
use iota_wallet::error::WalletError;
use iota_wallet::signing::advance;
use iota_wallet::signing::step;
use iota_wallet::signing::PipelineEvent;
use iota_wallet::signing::PipelineState;
use iota_wallet::transfer::prepare_consolidation;
use iota_wallet::transfer::prepare_nft_transfer;
use iota_wallet::transfer::prepare_transfer;
use iota_wallet::transfer::prepare_transfers;
use iota_wallet::transfer::Recipient;
use iota_wallet::transfer::SelectionConfig;
use iota_wallet::transfer::TransferIntent;
use iota_wallet::types::OutputData;
use iota_wallet::types::OutputId;
use iota_wallet::types::OutputStatus;
use iota_wallet::types::TxStatus;
use iota_wallet::types::BASE_TOKEN;

fn out(tx: u64, idx: u16, addr: u64, amount: u64, token: u64) -> OutputData {
    OutputData {
        id: OutputId { tx_id: tx, index: idx },
        address: addr,
        amount,
        token,
        nft: None,
        status: OutputStatus::Unspent,
    }
}

fn funded_account(outputs: Vec<OutputData>) -> AccountState {
    let mut acc = AccountState::new_account(0);
    acc.apply_sync_diff(&outputs, &Vec::new());
    acc
}

fn config() -> SelectionConfig {
    SelectionConfig { dust_min: 10, max_inputs: 16, max_outputs: 16 }
}

fn intent_to(recipients: Vec<Recipient>) -> TransferIntent {
    TransferIntent { recipients, allow_dust: false, remainder_address: None }
}

const SENDER: u64 = 7;
const RECIPIENT: u64 = 55;

#[test]
fn transfer_with_remainder() {
    let acc = funded_account(vec![out(1, 0, SENDER, 100, BASE_TOKEN)]);
    let candidates = acc.unspent_unlocked_outputs();
    let intent = intent_to(vec![Recipient { address: RECIPIENT, amount: 40, token: BASE_TOKEN }]);
    let essence = prepare_transfer(&candidates, &intent, &config(), SENDER).expect("prepared");
    assert_eq!(essence.inputs.len(), 1);
    assert_eq!(essence.inputs[0].amount, 100);
    assert_eq!(essence.outputs.len(), 2);
    assert_eq!(essence.outputs[0].address, RECIPIENT);
    assert_eq!(essence.outputs[0].amount, 40);
    assert!(!essence.outputs[0].is_remainder);
    assert_eq!(essence.outputs[1].address, SENDER);
    assert_eq!(essence.outputs[1].amount, 60);
    assert!(essence.outputs[1].is_remainder);
    // both created outputs meet the dust minimum
    assert!(essence.outputs.iter().all(|o| o.amount >= 10));
}

#[test]
fn transfer_exact_match_creates_no_remainder() {
    let acc = funded_account(vec![
        out(1, 0, SENDER, 30, BASE_TOKEN),
        out(1, 1, SENDER, 100, BASE_TOKEN),
    ]);
    let candidates = acc.unspent_unlocked_outputs();
    let intent = intent_to(vec![Recipient { address: RECIPIENT, amount: 100, token: BASE_TOKEN }]);
    let essence = prepare_transfer(&candidates, &intent, &config(), SENDER).expect("prepared");
    assert_eq!(essence.inputs.len(), 1);
    assert_eq!(essence.inputs[0].amount, 100);
    assert_eq!(essence.outputs.len(), 1);
    assert_eq!(essence.outputs[0].amount, 100);
    assert!(!essence.outputs[0].is_remainder);
}

#[test]
fn transfer_from_empty_account_fails_before_any_network_call() {
    let acc = AccountState::new_account(0);
    let candidates = acc.unspent_unlocked_outputs();
    let intent = intent_to(vec![Recipient { address: RECIPIENT, amount: 50, token: BASE_TOKEN }]);
    let r = prepare_transfer(&candidates, &intent, &config(), SENDER);
    assert_eq!(r.unwrap_err(), WalletError::InsufficientFunds);
}

#[test]
fn selection_is_deterministic() {
    let acc = funded_account(vec![
        out(1, 0, SENDER, 17, BASE_TOKEN),
        out(1, 1, SENDER, 23, BASE_TOKEN),
        out(1, 2, SENDER, 41, BASE_TOKEN),
    ]);
    let candidates = acc.unspent_unlocked_outputs();
    let intent = intent_to(vec![Recipient { address: RECIPIENT, amount: 30, token: BASE_TOKEN }]);
    let a = prepare_transfer(&candidates, &intent, &config(), SENDER).expect("prepared");
    let b = prepare_transfer(&candidates, &intent, &config(), SENDER).expect("prepared");
    assert_eq!(a.inputs, b.inputs);
    assert_eq!(a.outputs, b.outputs);
}

#[test]
fn zero_amount_rejected() {
    let acc = funded_account(vec![out(1, 0, SENDER, 100, BASE_TOKEN)]);
    let candidates = acc.unspent_unlocked_outputs();
    let intent = intent_to(vec![Recipient { address: RECIPIENT, amount: 0, token: BASE_TOKEN }]);
    let r = prepare_transfer(&candidates, &intent, &config(), SENDER);
    assert_eq!(r.unwrap_err(), WalletError::ZeroAmount);
}

#[test]
fn empty_intent_rejected() {
    let acc = funded_account(vec![out(1, 0, SENDER, 100, BASE_TOKEN)]);
    let candidates = acc.unspent_unlocked_outputs();
    let intent = intent_to(Vec::new());
    let r = prepare_transfer(&candidates, &intent, &config(), SENDER);
    assert_eq!(r.unwrap_err(), WalletError::EmptyIntent);
}

#[test]
fn dust_recipient_rejected_unless_allowed() {
    let acc = funded_account(vec![out(1, 0, SENDER, 100, BASE_TOKEN)]);
    let candidates = acc.unspent_unlocked_outputs();
    let intent = intent_to(vec![Recipient { address: RECIPIENT, amount: 5, token: BASE_TOKEN }]);
    let r = prepare_transfer(&candidates, &intent, &config(), SENDER);
    assert_eq!(r.unwrap_err(), WalletError::DustViolation);

    let micro = TransferIntent {
        recipients: vec![Recipient { address: RECIPIENT, amount: 5, token: BASE_TOKEN }],
        allow_dust: true,
        remainder_address: None,
    };
    let essence = prepare_transfer(&candidates, &micro, &config(), SENDER).expect("micro allowed");
    assert_eq!(essence.outputs[0].amount, 5);
}

#[test]
fn dusty_remainder_is_a_distinct_failure() {
    // funds cover the amount, but the only possible remainder (5) is dust
    let acc = funded_account(vec![out(1, 0, SENDER, 100, BASE_TOKEN)]);
    let candidates = acc.unspent_unlocked_outputs();
    let intent = intent_to(vec![Recipient { address: RECIPIENT, amount: 95, token: BASE_TOKEN }]);
    let r = prepare_transfer(&candidates, &intent, &config(), SENDER);
    assert_eq!(r.unwrap_err(), WalletError::InsufficientFundsForDust);
}

#[test]
fn input_and_output_limits_enforced() {
    let acc = funded_account(vec![
        out(1, 0, SENDER, 20, BASE_TOKEN),
        out(1, 1, SENDER, 20, BASE_TOKEN),
        out(1, 2, SENDER, 20, BASE_TOKEN),
    ]);
    let candidates = acc.unspent_unlocked_outputs();
    let tight_inputs = SelectionConfig { dust_min: 10, max_inputs: 2, max_outputs: 16 };
    let intent = intent_to(vec![Recipient { address: RECIPIENT, amount: 60, token: BASE_TOKEN }]);
    let r = prepare_transfer(&candidates, &intent, &tight_inputs, SENDER);
    assert_eq!(r.unwrap_err(), WalletError::TooManyInputs);

    let tight_outputs = SelectionConfig { dust_min: 10, max_inputs: 16, max_outputs: 1 };
    let with_remainder =
        intent_to(vec![Recipient { address: RECIPIENT, amount: 30, token: BASE_TOKEN }]);
    let r2 = prepare_transfer(&candidates, &with_remainder, &tight_outputs, SENDER);
    assert_eq!(r2.unwrap_err(), WalletError::TooManyOutputs);
}

#[test]
fn custom_remainder_address_is_honoured() {
    let acc = funded_account(vec![out(1, 0, SENDER, 100, BASE_TOKEN)]);
    let candidates = acc.unspent_unlocked_outputs();
    let intent = TransferIntent {
        recipients: vec![Recipient { address: RECIPIENT, amount: 40, token: BASE_TOKEN }],
        allow_dust: false,
        remainder_address: Some(900),
    };
    let essence = prepare_transfer(&candidates, &intent, &config(), SENDER).expect("prepared");
    assert_eq!(essence.outputs[1].address, 900);
}

#[test]
fn multi_class_intent_splits_into_sequential_transfers() {
    let acc = funded_account(vec![
        out(1, 0, SENDER, 100, BASE_TOKEN),
        out(1, 1, SENDER, 50, 4),
    ]);
    let candidates = acc.unspent_unlocked_outputs();
    let intent = TransferIntent {
        recipients: vec![
            Recipient { address: RECIPIENT, amount: 40, token: BASE_TOKEN },
            Recipient { address: RECIPIENT, amount: 50, token: 4 },
        ],
        allow_dust: false,
        remainder_address: None,
    };
    let essences = prepare_transfers(&candidates, &intent, &config(), SENDER).expect("prepared");
    assert_eq!(essences.len(), 2);
    assert_eq!(essences[0].outputs[0].token, BASE_TOKEN);
    assert_eq!(essences[0].outputs.len(), 2);
    assert_eq!(essences[1].outputs[0].token, 4);
    assert_eq!(essences[1].outputs.len(), 1);
}

#[test]
fn several_recipients_bundle_into_one_essence() {
    let acc = funded_account(vec![out(1, 0, SENDER, 100, BASE_TOKEN)]);
    let candidates = acc.unspent_unlocked_outputs();
    let intent = intent_to(vec![
        Recipient { address: 55, amount: 30, token: BASE_TOKEN },
        Recipient { address: 56, amount: 50, token: BASE_TOKEN },
    ]);
    let essence = prepare_transfer(&candidates, &intent, &config(), SENDER).expect("prepared");
    assert_eq!(essence.inputs.len(), 1);
    assert_eq!(essence.outputs.len(), 3);
    assert_eq!(essence.outputs[0].amount, 30);
    assert_eq!(essence.outputs[1].amount, 50);
    assert_eq!(essence.outputs[2].amount, 20);
    assert!(essence.outputs[2].is_remainder);
    // value conservation at concrete values
    let spent: u64 = essence.inputs.iter().map(|o| o.amount).sum();
    let created: u64 = essence.outputs.iter().map(|o| o.amount).sum();
    assert_eq!(spent, created);
}

#[test]
fn nft_transfer_moves_the_carrying_output() {
    let mut nft_out = out(3, 0, SENDER, 15, BASE_TOKEN);
    nft_out.nft = Some(777);
    let acc = funded_account(vec![out(1, 0, SENDER, 100, BASE_TOKEN), nft_out]);
    let candidates = acc.unspent_unlocked_outputs();
    let essence = prepare_nft_transfer(&candidates, 777, RECIPIENT).expect("nft found");
    assert_eq!(essence.inputs.len(), 1);
    assert_eq!(essence.inputs[0].nft, Some(777));
    assert_eq!(essence.outputs.len(), 1);
    assert_eq!(essence.outputs[0].address, RECIPIENT);
    assert_eq!(essence.outputs[0].amount, 15);
    assert_eq!(essence.outputs[0].nft, Some(777));

    let missing = prepare_nft_transfer(&candidates, 778, RECIPIENT);
    assert_eq!(missing.unwrap_err(), WalletError::NftNotFound);
}

#[test]
fn consolidation_merges_a_class_into_one_output() {
    let acc = funded_account(vec![
        out(1, 0, SENDER, 20, BASE_TOKEN),
        out(1, 1, SENDER, 30, BASE_TOKEN),
        out(1, 2, SENDER, 5, 4),
    ]);
    let candidates = acc.unspent_unlocked_outputs();
    let essence =
        prepare_consolidation(&candidates, BASE_TOKEN, SENDER, &config()).expect("consolidated");
    assert_eq!(essence.inputs.len(), 2);
    assert_eq!(essence.outputs.len(), 1);
    assert_eq!(essence.outputs[0].amount, 50);
    assert_eq!(essence.outputs[0].address, SENDER);

    let nothing = prepare_consolidation(&candidates, 99, SENDER, &config());
    assert_eq!(nothing.unwrap_err(), WalletError::InsufficientFunds);
}

#[test]
fn exactly_one_of_two_reservations_succeeds() {
    let mut acc = funded_account(vec![out(1, 0, SENDER, 100, BASE_TOKEN)]);
    let ids = vec![OutputId { tx_id: 1, index: 0 }];
    let first = acc.reserve_inputs(&ids);
    assert!(first.is_ok());
    let second = acc.reserve_inputs(&ids);
    assert_eq!(second.unwrap_err(), WalletError::OutputLocked);
    // the output stays locked by the first reservation
    assert!(matches!(acc.outputs[0].status, OutputStatus::Locked { .. }));
}

#[test]
fn reservation_is_atomic_all_or_nothing() {
    let mut acc = funded_account(vec![
        out(1, 0, SENDER, 60, BASE_TOKEN),
        out(1, 1, SENDER, 40, BASE_TOKEN),
    ]);
    let both = vec![OutputId { tx_id: 1, index: 0 }, OutputId { tx_id: 1, index: 1 }];
    let one = vec![OutputId { tx_id: 1, index: 0 }];
    acc.reserve_inputs(&one).expect("first reservation");
    // the overlapping reservation fails and must not lock the second output
    let r = acc.reserve_inputs(&both);
    assert_eq!(r.unwrap_err(), WalletError::OutputLocked);
    assert_eq!(acc.outputs[1].status, OutputStatus::Unspent);
    assert_eq!(acc.base_balance(), 40);
}

#[test]
fn unknown_input_rejected() {
    let mut acc = funded_account(vec![out(1, 0, SENDER, 100, BASE_TOKEN)]);
    let ids = vec![OutputId { tx_id: 9, index: 9 }];
    let r = acc.reserve_inputs(&ids);
    assert_eq!(r.unwrap_err(), WalletError::OutputNotFound);
}

#[test]
fn failed_signing_releases_every_reserved_input() {
    let mut acc = funded_account(vec![
        out(1, 0, SENDER, 60, BASE_TOKEN),
        out(1, 1, SENDER, 40, BASE_TOKEN),
    ]);
    let before = acc.outputs.clone();
    let ids = vec![OutputId { tx_id: 1, index: 0 }, OutputId { tx_id: 1, index: 1 }];
    let tx = acc.reserve_inputs(&ids).expect("reserved");
    assert_eq!(acc.base_balance(), 0);

    // the adapter fails after input selection: the pipeline fails and
    // releases the locks
    let state = advance(&mut acc, tx, PipelineState::Signing, PipelineEvent::AdapterFailed);
    assert_eq!(state, PipelineState::Failed);
    assert_eq!(acc.outputs, before);
    assert_eq!(acc.base_balance(), 100);
    assert_eq!(acc.transactions[0].status, TxStatus::Failed);
}

#[test]
fn accepted_submission_keeps_locks_and_pending_record() {
    let mut acc = funded_account(vec![out(1, 0, SENDER, 100, BASE_TOKEN)]);
    let ids = vec![OutputId { tx_id: 1, index: 0 }];
    let tx = acc.reserve_inputs(&ids).expect("reserved");
    acc.apply_transaction_result(tx, true);
    assert!(matches!(acc.outputs[0].status, OutputStatus::Locked { .. }));
    assert_eq!(acc.transactions[0].status, TxStatus::Pending);
}

#[test]
fn pipeline_follows_the_happy_path() {
    let mut s = PipelineState::Building;
    s = step(s, PipelineEvent::EssenceReady);
    assert_eq!(s, PipelineState::AwaitingUnlock);
    s = step(s, PipelineEvent::UnlockFresh);
    assert_eq!(s, PipelineState::Signing);
    s = step(s, PipelineEvent::SignaturesProduced);
    assert_eq!(s, PipelineState::Submitting);
    s = step(s, PipelineEvent::SubmissionAccepted);
    assert_eq!(s, PipelineState::Pending);
    s = step(s, PipelineEvent::LedgerConfirmed);
    assert_eq!(s, PipelineState::Confirmed);
}

#[test]
fn pipeline_fails_fast_when_store_locked() {
    let s = step(PipelineState::AwaitingUnlock, PipelineEvent::UnlockMissing);
    assert_eq!(s, PipelineState::Failed);
    // an event from another stage changes nothing
    let t = step(PipelineState::Building, PipelineEvent::SubmissionAccepted);
    assert_eq!(t, PipelineState::Building);
}
