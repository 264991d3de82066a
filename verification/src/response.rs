//! The response message: the closed set of payloads the message dispatcher
//! can hand back to an external caller, and its log-safe rendering, which
//! never exposes a generated mnemonic.

use vstd::prelude::*;

use crate::account::AccountState;
use crate::error::WalletError;
use crate::transfer::TransactionEssence;
use crate::types::AddressInfo;
use crate::types::OutputData;
use crate::types::OutputId;
use crate::types::TxRecord;

verus! {

/// Spendable total of one token class.
#[derive(Clone, Copy, PartialEq, Eq, Structural, Debug)]
pub struct TokenBalance {
    pub token: u64,
    pub amount: u128,
}

/// Balance summary returned by balance queries and sync rounds.
#[derive(Clone, Debug)]
pub struct BalanceSummary {
    pub base: u128,
    pub tokens: Vec<TokenBalance>,
}

/// Result of a submitted transfer: the local transaction it created.
#[derive(Clone, Copy, PartialEq, Eq, Structural, Debug)]
pub struct TransferResult {
    pub tx_id: u64,
}

/// A signed transaction: the essence plus one signature per input owner.
#[derive(Clone, Debug)]
pub struct SignedTransaction {
    pub essence: TransactionEssence,
    pub signatures: Vec<Vec<u8>>,
}

/// What the node reports about itself.
#[derive(Clone, Copy, PartialEq, Eq, Structural, Debug)]
pub struct NodeInfo {
    pub healthy: bool,
    pub latest_milestone: u64,
}

/// The response message.
#[derive(Clone, Debug)]
pub enum Response {
    /// One account's state, for account creation and lookup.
    Account(AccountState),
    /// Every account's state.
    Accounts(Vec<AccountState>),
    /// The account's addresses.
    Addresses(Vec<AddressInfo>),
    /// The addresses still holding unspent outputs.
    AddressesWithUnspentOutputs(Vec<AddressInfo>),
    /// Identifiers of outputs matching a query.
    OutputIds(Vec<OutputId>),
    /// One output, if known.
    Output(Option<OutputData>),
    /// Outputs matching a query.
    Outputs(Vec<OutputData>),
    /// An unsigned transaction essence, ready for signing.
    PreparedTransaction(TransactionEssence),
    /// The account's transaction records.
    Transactions(Vec<TxRecord>),
    /// A signed transaction, ready for submission.
    SignedTransactionData(SignedTransaction),
    /// Newly generated addresses.
    GeneratedAddress(Vec<AddressInfo>),
    /// The account's balance.
    Balance(BalanceSummary),
    /// Outcome of one sent transfer.
    SentTransfer(TransferResult),
    /// Outcome of a batch of sent transfers.
    SentTransfers(Vec<TransferResult>),
    /// Whether an unlock password is currently cached.
    StrongholdPasswordIsAvailable(bool),
    /// An error occurred.
    Error(WalletError),
    /// A handler panicked; the fault was caught at the dispatch boundary.
    Panic(String),
    /// A newly generated mnemonic.  Its rendering is always redacted.
    GeneratedMnemonic(String),
    /// The node's own information.
    NodeInfo(NodeInfo),
    /// Plain acknowledgment.
    Acknowledged,
}

/// Log-safe rendering of each response kind.  The mnemonic variant maps to a
/// fixed redaction marker whatever the mnemonic is.
pub open spec fn spec_label(r: Response) -> Seq<char> {
    match r {
        Response::Account(_) => "Account"@,
        Response::Accounts(_) => "Accounts"@,
        Response::Addresses(_) => "Addresses"@,
        Response::AddressesWithUnspentOutputs(_) => "AddressesWithUnspentOutputs"@,
        Response::OutputIds(_) => "OutputIds"@,
        Response::Output(_) => "Output"@,
        Response::Outputs(_) => "Outputs"@,
        Response::PreparedTransaction(_) => "PreparedTransaction"@,
        Response::Transactions(_) => "Transactions"@,
        Response::SignedTransactionData(_) => "SignedTransactionData"@,
        Response::GeneratedAddress(_) => "GeneratedAddress"@,
        Response::Balance(_) => "Balance"@,
        Response::SentTransfer(_) => "SentTransfer"@,
        Response::SentTransfers(_) => "SentTransfers"@,
        Response::StrongholdPasswordIsAvailable(_) => "StrongholdPasswordIsAvailable"@,
        Response::Error(_) => "Error"@,
        Response::Panic(_) => "Panic"@,
        Response::GeneratedMnemonic(_) => "GeneratedMnemonic(<omitted>)"@,
        Response::NodeInfo(_) => "NodeInfo"@,
        Response::Acknowledged => "Acknowledged"@,
    }
}

impl Response {
    /// The log-safe rendering tag of this response.  Secrets never appear:
    /// a generated mnemonic renders as a fixed marker.
    pub fn debug_label(&self) -> (r: &'static str)
        ensures
            r@ == spec_label(*self),
    {
        match self {
            Response::Account(_) => "Account",
            Response::Accounts(_) => "Accounts",
            Response::Addresses(_) => "Addresses",
            Response::AddressesWithUnspentOutputs(_) => "AddressesWithUnspentOutputs",
            Response::OutputIds(_) => "OutputIds",
            Response::Output(_) => "Output",
            Response::Outputs(_) => "Outputs",
            Response::PreparedTransaction(_) => "PreparedTransaction",
            Response::Transactions(_) => "Transactions",
            Response::SignedTransactionData(_) => "SignedTransactionData",
            Response::GeneratedAddress(_) => "GeneratedAddress",
            Response::Balance(_) => "Balance",
            Response::SentTransfer(_) => "SentTransfer",
            Response::SentTransfers(_) => "SentTransfers",
            Response::StrongholdPasswordIsAvailable(_) => "StrongholdPasswordIsAvailable",
            Response::Error(_) => "Error",
            Response::Panic(_) => "Panic",
            Response::GeneratedMnemonic(_) => "GeneratedMnemonic(<omitted>)",
            Response::NodeInfo(_) => "NodeInfo",
            Response::Acknowledged => "Acknowledged",
        }
    }
}

/// Redaction law: the rendering of a mnemonic response does not depend on
/// the mnemonic, so no response rendering can leak the secret.
pub proof fn lemma_mnemonic_redacted(r1: Response, r2: Response)
    requires
        r1 is GeneratedMnemonic,
        r2 is GeneratedMnemonic,
    ensures
        spec_label(r1) == spec_label(r2),
{
}

} // verus!
