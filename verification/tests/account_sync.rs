//! Account state and synchronization: balances, diff application,
//! idempotence, double-spend detection and address discovery.

use iota_wallet::account::AccountState;
use iota_wallet::account::SpentEntry;
use iota_wallet::sync::compute_diff;
use iota_wallet::sync::plan_query_range;
use iota_wallet::sync::summarize_sync;
use iota_wallet::sync::AddressSyncResult;
use iota_wallet::sync::NodeOutput;
use iota_wallet::types::AddressInfo;
use iota_wallet::types::OutputData;
use iota_wallet::types::OutputId;
use iota_wallet::types::OutputStatus;
use iota_wallet::types::TxStatus;
use iota_wallet::types::BASE_TOKEN;

fn out(tx: u64, idx: u16, addr: u64, amount: u64, token: u64) -> OutputData {
    OutputData {
        id: OutputId { tx_id: tx, index: idx },
        address: addr,
        amount,
        token,
        nft: None,
        status: OutputStatus::Unspent,
    }
}

fn funded_account(outputs: Vec<OutputData>) -> AccountState {
    let mut acc = AccountState::new_account(0);
    acc.apply_sync_diff(&outputs, &Vec::new());
    acc
}

#[test]
fn balance_equals_sum_of_unspent_unlocked() {
    let acc = funded_account(vec![
        out(1, 0, 7, 100, BASE_TOKEN),
        out(1, 1, 7, 40, BASE_TOKEN),
        out(2, 0, 7, 5, 9),
    ]);
    assert_eq!(acc.balance(BASE_TOKEN), 140);
    assert_eq!(acc.balance(9), 5);
    assert_eq!(acc.base_balance(), 140);
}

#[test]
fn balance_partitioned_by_token_class() {
    let acc = funded_account(vec![
        out(1, 0, 7, 10, BASE_TOKEN),
        out(1, 1, 7, 20, 5),
        out(1, 2, 7, 30, 5),
        out(1, 3, 7, 40, 6),
    ]);
    assert_eq!(acc.balance(BASE_TOKEN), 10);
    assert_eq!(acc.balance(5), 50);
    assert_eq!(acc.balance(6), 40);
    assert_eq!(acc.balance(1234), 0);
}

#[test]
fn sync_diff_merges_new_and_marks_spent() {
    let mut acc = funded_account(vec![out(1, 0, 7, 100, BASE_TOKEN)]);
    let new = vec![out(2, 0, 7, 50, BASE_TOKEN)];
    let spent = vec![SpentEntry { out: OutputId { tx_id: 1, index: 0 }, spender: 99 }];
    acc.apply_sync_diff(&new, &spent);
    assert_eq!(acc.outputs.len(), 2);
    assert_eq!(acc.outputs[0].status, OutputStatus::Spent);
    assert_eq!(acc.outputs[1].status, OutputStatus::Unspent);
    assert_eq!(acc.base_balance(), 50);
}

#[test]
fn sync_diff_idempotent() {
    let base = funded_account(vec![out(1, 0, 7, 100, BASE_TOKEN), out(1, 1, 7, 25, 4)]);
    let new = vec![out(2, 0, 7, 50, BASE_TOKEN)];
    let spent = vec![SpentEntry { out: OutputId { tx_id: 1, index: 0 }, spender: 99 }];

    let mut once = base.clone_account();
    once.apply_sync_diff(&new, &spent);
    let mut twice = base.clone_account();
    twice.apply_sync_diff(&new, &spent);
    twice.apply_sync_diff(&new, &spent);

    assert_eq!(once.outputs, twice.outputs);
    assert_eq!(once.base_balance(), twice.base_balance());
    assert_eq!(once.transactions.len(), twice.transactions.len());
    for (a, b) in once.transactions.iter().zip(twice.transactions.iter()) {
        assert_eq!(a.id, b.id);
        assert_eq!(a.status, b.status);
        assert_eq!(a.inputs, b.inputs);
    }
}

#[test]
fn reapplying_known_output_is_noop() {
    let mut acc = funded_account(vec![out(1, 0, 7, 100, BASE_TOKEN)]);
    acc.apply_sync_diff(&vec![out(1, 0, 7, 100, BASE_TOKEN)], &Vec::new());
    assert_eq!(acc.outputs.len(), 1);
    assert_eq!(acc.base_balance(), 100);
}

#[test]
fn double_spend_invalidates_pending_transaction() {
    let mut acc = funded_account(vec![
        out(1, 0, 7, 100, BASE_TOKEN),
        out(1, 1, 7, 30, BASE_TOKEN),
    ]);
    let ids = vec![OutputId { tx_id: 1, index: 0 }, OutputId { tx_id: 1, index: 1 }];
    let tx = acc.reserve_inputs(&ids).expect("reservation succeeds");
    assert_eq!(acc.base_balance(), 0);

    // the ledger spends the first input under a foreign transaction
    let spent = vec![SpentEntry { out: OutputId { tx_id: 1, index: 0 }, spender: tx + 1000 }];
    acc.apply_sync_diff(&Vec::new(), &spent);

    assert_eq!(acc.outputs[0].status, OutputStatus::Spent);
    // the other input of the invalidated transaction is released
    assert_eq!(acc.outputs[1].status, OutputStatus::Unspent);
    assert_eq!(acc.transactions[0].status, TxStatus::Invalidated);
    // no double count: only the released output counts
    assert_eq!(acc.base_balance(), 30);
}

#[test]
fn sync_confirms_own_transaction() {
    let mut acc = funded_account(vec![out(1, 0, 7, 100, BASE_TOKEN)]);
    let ids = vec![OutputId { tx_id: 1, index: 0 }];
    let tx = acc.reserve_inputs(&ids).expect("reservation succeeds");
    let spent = vec![SpentEntry { out: OutputId { tx_id: 1, index: 0 }, spender: tx }];
    acc.apply_sync_diff(&Vec::new(), &spent);
    assert_eq!(acc.outputs[0].status, OutputStatus::Spent);
    assert_eq!(acc.transactions[0].status, TxStatus::Confirmed);
}

#[test]
fn compute_diff_filters_known_and_unknown() {
    let acc = funded_account(vec![out(1, 0, 7, 100, BASE_TOKEN)]);
    let observed_unspent = vec![
        NodeOutput {
            id: OutputId { tx_id: 1, index: 0 },
            address: 7,
            amount: 100,
            token: BASE_TOKEN,
            nft: None,
        },
        NodeOutput {
            id: OutputId { tx_id: 3, index: 0 },
            address: 7,
            amount: 11,
            token: BASE_TOKEN,
            nft: None,
        },
    ];
    let observed_spent = vec![
        SpentEntry { out: OutputId { tx_id: 1, index: 0 }, spender: 50 },
        SpentEntry { out: OutputId { tx_id: 77, index: 0 }, spender: 50 },
    ];
    let (new, spent) = compute_diff(&acc, &observed_unspent, &observed_spent);
    // the known output is not re-added; the unknown spent entry is dropped
    assert_eq!(new.len(), 1);
    assert_eq!(new[0].id, OutputId { tx_id: 3, index: 0 });
    assert_eq!(new[0].status, OutputStatus::Unspent);
    assert_eq!(spent.len(), 1);
    assert_eq!(spent[0].out, OutputId { tx_id: 1, index: 0 });
}

#[test]
fn plan_query_range_probes_beyond_last_index() {
    let addresses = vec![
        AddressInfo { key_index: 0, internal: false, address: 70, used: true },
        AddressInfo { key_index: 1, internal: false, address: 71, used: false },
    ];
    let range = plan_query_range(&addresses, 3);
    assert_eq!(range, vec![0, 1, 2, 3, 4]);
}

#[test]
fn plan_query_range_on_fresh_account() {
    let range = plan_query_range(&Vec::new(), 2);
    assert_eq!(range, vec![0, 1]);
}

#[test]
fn extend_addresses_is_permanent_and_deduplicated() {
    let mut acc = AccountState::new_account(0);
    let found = vec![
        AddressInfo { key_index: 0, internal: false, address: 70, used: true },
        AddressInfo { key_index: 1, internal: false, address: 71, used: true },
    ];
    acc.extend_addresses(&found);
    assert_eq!(acc.addresses.len(), 2);
    // the same derivation slots do not join twice
    acc.extend_addresses(&found);
    assert_eq!(acc.addresses.len(), 2);
    // a new slot still joins
    acc.extend_addresses(&vec![AddressInfo {
        key_index: 1,
        internal: true,
        address: 81,
        used: false,
    }]);
    assert_eq!(acc.addresses.len(), 3);
}

#[test]
fn summarize_sync_reports_partial_failures() {
    let results = vec![
        AddressSyncResult { address: 70, ok: true },
        AddressSyncResult { address: 71, ok: false },
        AddressSyncResult { address: 72, ok: true },
    ];
    let report = summarize_sync(&results);
    assert_eq!(report.synced, vec![70, 72]);
    assert_eq!(report.failed, vec![71]);
}
