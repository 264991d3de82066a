//! Message dispatcher: maps the closed set of account queries to the closed
//! set of response variants, with the payload of each response pinned to the
//! account state it was read from.  Mutating operations go through the typed
//! entry points (`apply_sync_diff`, `reserve_inputs`,
//! `apply_transaction_result`) directly; the panic-catching supervision of
//! handlers is the runner's job at the process boundary, outside this crate.

use vstd::prelude::*;

use crate::account::AccountState;
use crate::error::WalletError;
use crate::response::BalanceSummary;
use crate::response::Response;
use crate::response::TokenBalance;
use crate::types::AddressInfo;
use crate::types::OutputData;
use crate::types::OutputId;
use crate::types::TxRecord;
use crate::types::balance_of;
use crate::types::class_balance;
use crate::types::copy_ids;
use crate::types::txs_view;
use crate::types::BASE_TOKEN;

verus! {

/// The account queries the dispatcher serves.
#[derive(Clone, Copy, PartialEq, Eq, Structural, Debug)]
pub enum AccountMethod {
    GetAccount,
    ListAddresses,
    ListAddressesWithUnspentOutputs,
    ListOutputs,
    ListUnspentOutputs,
    ListTransactions,
    GetBalance,
    GetOutput(OutputId),
}

/// Non-base token classes an output list touches, in order of first
/// appearance.
pub open spec fn distinct_classes(s: Seq<OutputData>) -> Seq<u64>
    decreases s.len(),
{
    if s.len() == 0 {
        Seq::empty()
    } else {
        let rest = distinct_classes(s.drop_last());
        if s.last().token == BASE_TOKEN || rest.contains(s.last().token) {
            rest
        } else {
            rest.push(s.last().token)
        }
    }
}

/// An address currently holding at least one unspent, unlocked output.
pub open spec fn has_unspent_at(outs: Seq<OutputData>, addr: u64) -> bool {
    exists|i: int| 0 <= i < outs.len() && outs[i].address == addr && outs[i].status is Unspent
}

fn has_unspent_at_exec(outs: &Vec<OutputData>, addr: u64) -> (b: bool)
    ensures
        b == has_unspent_at(outs@, addr),
{
    let mut i: usize = 0;
    while i < outs.len()
        invariant
            0 <= i <= outs@.len(),
            forall|m: int|
                0 <= m < i ==> !(outs@[m].address == addr && outs@[m].status is Unspent),
        decreases outs@.len() - i,
    {
        if outs[i].address == addr && matches!(outs[i].status, crate::types::OutputStatus::Unspent) {
            return true;
        }
        i = i + 1;
    }
    false
}

impl AccountState {
    /// An equal copy of this account snapshot, for read responses.
    pub fn clone_account(&self) -> (r: AccountState)
        ensures
            r.index == self.index,
            r.addresses@ == self.addresses@,
            r.outputs@ == self.outputs@,
            txs_view(r.transactions@) == txs_view(self.transactions@),
            r.cached_base_balance == self.cached_base_balance,
            r.next_local_tx == self.next_local_tx,
            self.wf() ==> r.wf(),
    {
        let mut addresses: Vec<AddressInfo> = Vec::new();
        let mut i: usize = 0;
        while i < self.addresses.len()
            invariant
                0 <= i <= self.addresses@.len(),
                addresses@ == self.addresses@.take(i as int),
            decreases self.addresses@.len() - i,
        {
            addresses.push(self.addresses[i]);
            proof {
                assert(self.addresses@.take(i + 1) =~= self.addresses@.take(i as int).push(
                    self.addresses@[i as int],
                ));
            }
            i = i + 1;
        }
        let mut outputs: Vec<OutputData> = Vec::new();
        let mut j: usize = 0;
        while j < self.outputs.len()
            invariant
                0 <= j <= self.outputs@.len(),
                outputs@ == self.outputs@.take(j as int),
            decreases self.outputs@.len() - j,
        {
            outputs.push(self.outputs[j]);
            proof {
                assert(self.outputs@.take(j + 1) =~= self.outputs@.take(j as int).push(
                    self.outputs@[j as int],
                ));
            }
            j = j + 1;
        }
        let mut transactions: Vec<TxRecord> = Vec::new();
        let mut k: usize = 0;
        proof {
            assert(txs_view(transactions@) =~= txs_view(self.transactions@).take(0));
        }
        while k < self.transactions.len()
            invariant
                0 <= k <= self.transactions@.len(),
                transactions@.len() == k,
                txs_view(transactions@) == txs_view(self.transactions@).take(k as int),
            decreases self.transactions@.len() - k,
        {
            let rec = &self.transactions[k];
            let inputs = copy_ids(&rec.inputs);
            transactions.push(TxRecord { id: rec.id, inputs, status: rec.status });
            proof {
                assert(transactions@[k as int].inputs@ == self.transactions@[k as int].inputs@);
                assert(transactions@[k as int]@ =~= self.transactions@[k as int]@);
                assert(txs_view(transactions@) =~= txs_view(self.transactions@).take(k + 1));
            }
            k = k + 1;
        }
        proof {
            assert(self.addresses@.take(self.addresses@.len() as int) =~= self.addresses@);
            assert(self.outputs@.take(self.outputs@.len() as int) =~= self.outputs@);
            assert(txs_view(self.transactions@).take(self.transactions@.len() as int)
                =~= txs_view(self.transactions@));
            assert(forall|m: int|
                0 <= m < transactions@.len() ==> #[trigger] transactions@[m].id == txs_view(
                    transactions@,
                )[m].id);
            assert(forall|m: int|
                0 <= m < self.transactions@.len() ==> #[trigger] self.transactions@[m].id
                    == txs_view(self.transactions@)[m].id);
        }
        AccountState {
            index: self.index,
            addresses,
            outputs,
            transactions,
            cached_base_balance: self.cached_base_balance,
            next_local_tx: self.next_local_tx,
        }
    }

    /// Balance of every token class the account holds: the base coin plus
    /// one entry per native-token class, each derived from the unspent,
    /// unlocked outputs.
    pub fn balance_summary(&self) -> (r: BalanceSummary)
        requires
            self.wf(),
        ensures
            r.base == balance_of(self.outputs@, BASE_TOKEN),
            r.tokens@.len() == distinct_classes(self.outputs@).len(),
            forall|k: int|
                0 <= k < r.tokens@.len() ==> (#[trigger] r.tokens@[k]).token == distinct_classes(
                    self.outputs@,
                )[k] && r.tokens@[k].amount == balance_of(
                    self.outputs@,
                    distinct_classes(self.outputs@)[k],
                ),
    {
        let mut toks: Vec<u64> = Vec::new();
        let mut i: usize = 0;
        proof {
            assert(self.outputs@.take(0) =~= Seq::<OutputData>::empty());
        }
        while i < self.outputs.len()
            invariant
                0 <= i <= self.outputs@.len(),
                toks@ == distinct_classes(self.outputs@.take(i as int)),
            decreases self.outputs@.len() - i,
        {
            let t = self.outputs[i].token;
            let mut seen = t == BASE_TOKEN;
            let mut w: usize = 0;
            while w < toks.len()
                invariant
                    0 <= w <= toks@.len(),
                    seen == (t == BASE_TOKEN || exists|v: int| 0 <= v < w && toks@[v] == t),
                decreases toks@.len() - w,
            {
                if toks[w] == t {
                    seen = true;
                }
                w = w + 1;
            }
            proof {
                assert(self.outputs@.take(i + 1).drop_last() =~= self.outputs@.take(i as int));
                assert(self.outputs@.take(i + 1).last() == self.outputs@[i as int]);
                assert(seen == (t == BASE_TOKEN || toks@.contains(t)));
            }
            if !seen {
                toks.push(t);
            }
            i = i + 1;
        }
        proof {
            assert(self.outputs@.take(self.outputs@.len() as int) =~= self.outputs@);
        }
        let mut tokens: Vec<TokenBalance> = Vec::new();
        let mut k: usize = 0;
        while k < toks.len()
            invariant
                0 <= k <= toks@.len(),
                toks@ == distinct_classes(self.outputs@),
                tokens@.len() == k,
                forall|m: int|
                    0 <= m < k ==> (#[trigger] tokens@[m]).token == toks@[m] && tokens@[m].amount
                        == balance_of(self.outputs@, toks@[m]),
            decreases toks@.len() - k,
        {
            let t = toks[k];
            let amount = class_balance(&self.outputs, t);
            tokens.push(TokenBalance { token: t, amount });
            k = k + 1;
        }
        let base = self.base_balance();
        BalanceSummary { base, tokens }
    }
}

/// The response each query maps to, with its payload pinned to the account
/// state it was read from.
pub open spec fn spec_response_for(acc: AccountState, method: AccountMethod, r: Response) -> bool {
    match method {
        AccountMethod::GetAccount => r matches Response::Account(a) && a.index == acc.index
            && a.addresses@ == acc.addresses@ && a.outputs@ == acc.outputs@ && txs_view(
            a.transactions@,
        ) == txs_view(acc.transactions@),
        AccountMethod::ListAddresses => r matches Response::Addresses(v) && v@ == acc.addresses@,
        AccountMethod::ListAddressesWithUnspentOutputs => r matches
            Response::AddressesWithUnspentOutputs(v) && v@ == acc.addresses@.filter(
            |a: AddressInfo| has_unspent_at(acc.outputs@, a.address),
        ),
        AccountMethod::ListOutputs => r matches Response::Outputs(v) && v@ == acc.outputs@,
        AccountMethod::ListUnspentOutputs => r matches Response::Outputs(v) && v@
            == acc.outputs@.filter(|o: OutputData| o.status is Unspent),
        AccountMethod::ListTransactions => r matches Response::Transactions(v) && txs_view(v@)
            == txs_view(acc.transactions@),
        AccountMethod::GetBalance => r matches Response::Balance(b) && b.base == balance_of(
            acc.outputs@,
            BASE_TOKEN,
        ) && b.tokens@.len() == distinct_classes(acc.outputs@).len() && (forall|k: int|
            0 <= k < b.tokens@.len() ==> (#[trigger] b.tokens@[k]).token == distinct_classes(
                acc.outputs@,
            )[k] && b.tokens@[k].amount == balance_of(
                acc.outputs@,
                distinct_classes(acc.outputs@)[k],
            )),
        AccountMethod::GetOutput(id) => r matches Response::Output(o) && (match o {
            Option::Some(out) => out.id == id && acc.outputs@.contains(out),
            Option::None => !crate::types::has_output_id(acc.outputs@, id),
        }),
    }
}

/// The wallet runtime: the account registry, the process-wide secret
/// lifecycle state, and the background synchronization schedule.
pub struct Wallet {
    pub accounts: Vec<AccountState>,
    pub secret: crate::secret::SecretLifecycle,
    pub scheduler: crate::scheduler::BackgroundScheduler,
}

impl Wallet {
    /// Accounts sit at the position of their index, each well formed, and
    /// the secret store holds no credential while locked.
    pub open spec fn wf(self) -> bool {
        &&& forall|i: int|
            0 <= i < self.accounts@.len() ==> (#[trigger] self.accounts@[i]).wf()
                && self.accounts@[i].index == i as u32
        &&& self.accounts@.len() <= 0xffff_ffff
        &&& self.secret.wf()
    }

    /// A wallet with no accounts, a locked secret store with the given
    /// auto-clear duration, and a stopped scheduler.
    pub fn new(clear_interval: u64, sync_interval: u64) -> (r: Wallet)
        ensures
            r.wf(),
            r.accounts@.len() == 0,
            !r.scheduler.running,
            forall|now: u64| !r.secret.spec_fresh(now),
    {
        Wallet {
            accounts: Vec::new(),
            secret: crate::secret::SecretLifecycle::new(clear_interval),
            scheduler: crate::scheduler::BackgroundScheduler::new(sync_interval),
        }
    }
}

/// The wallet-level requests the dispatcher serves; per-account queries are
/// routed through `AccountMethod`.  Mutations of account state (sync diffs,
/// reservations, transfer results) go through the typed entry points so
/// their callers see the full contracts.
pub enum Message {
    CreateAccount,
    GetAccount(u32),
    GetAccounts,
    CallAccountMethod(u32, AccountMethod),
    SetStrongholdPassword(Vec<u8>),
    ClearStrongholdPassword,
    IsStrongholdPasswordAvailable,
    SetStrongholdPasswordClearInterval(u64),
    StartBackgroundSync,
    StopBackgroundSync,
}

/// Route one request to the matching component and package the outcome in
/// the closed response union.  Every request answers: a missing account
/// yields the error response, an acknowledged mutation the acknowledgment,
/// and queries leave the wallet untouched.
pub fn dispatch(w: &mut Wallet, msg: Message, now: u64) -> (r: Response)
    requires
        old(w).wf(),
        old(w).accounts@.len() < 0xffff_ffff,
    ensures
        final(w).wf(),
        match msg {
            Message::CreateAccount => {
                &&& final(w).accounts@.len() == old(w).accounts@.len() + 1
                &&& (forall|i: int|
                    0 <= i < old(w).accounts@.len() ==> final(w).accounts@[i] == old(
                        w,
                    ).accounts@[i])
                &&& final(w).accounts@.last().outputs@.len() == 0
                &&& final(w).secret == old(w).secret
                &&& final(w).scheduler == old(w).scheduler
                &&& (r matches Response::Account(a) && a.index == old(w).accounts@.len() as u32)
            },
            Message::GetAccount(ix) => *final(w) == *old(w) && (if ix < old(w).accounts@.len() {
                r matches Response::Account(a) && a.index == ix && a.outputs@ == old(
                    w,
                ).accounts@[ix as int].outputs@ && a.addresses@ == old(
                    w,
                ).accounts@[ix as int].addresses@ && txs_view(a.transactions@) == txs_view(
                    old(w).accounts@[ix as int].transactions@,
                )
            } else {
                r == Response::Error(WalletError::AccountNotFound)
            }),
            Message::GetAccounts => *final(w) == *old(w) && (r matches Response::Accounts(v)
                && v@.len() == old(w).accounts@.len() && forall|i: int|
                0 <= i < v@.len() ==> (#[trigger] v@[i]).index == old(w).accounts@[i].index
                    && v@[i].outputs@ == old(w).accounts@[i].outputs@),
            Message::CallAccountMethod(ix, m) => *final(w) == *old(w) && (if ix < old(
                w,
            ).accounts@.len() {
                spec_response_for(old(w).accounts@[ix as int], m, r)
            } else {
                r == Response::Error(WalletError::AccountNotFound)
            }),
            Message::SetStrongholdPassword(pw) => {
                &&& final(w).accounts@ == old(w).accounts@
                &&& final(w).scheduler == old(w).scheduler
                &&& final(w).secret.unlocked
                &&& final(w).secret.password@ == pw@
                &&& final(w).secret.last_touch == now
                &&& r == Response::Acknowledged
            },
            Message::ClearStrongholdPassword => {
                &&& final(w).accounts@ == old(w).accounts@
                &&& final(w).scheduler == old(w).scheduler
                &&& !final(w).secret.unlocked
                &&& final(w).secret.password@.len() == 0
                &&& r == Response::Acknowledged
            },
            Message::IsStrongholdPasswordAvailable => *final(w) == *old(w) && r
                == Response::StrongholdPasswordIsAvailable(old(w).secret.spec_fresh(now)),
            Message::SetStrongholdPasswordClearInterval(d) => {
                &&& final(w).accounts@ == old(w).accounts@
                &&& final(w).scheduler == old(w).scheduler
                &&& final(w).secret.clear_interval == d
                &&& final(w).secret.unlocked == old(w).secret.unlocked
                &&& r == Response::Acknowledged
            },
            Message::StartBackgroundSync => {
                &&& final(w).accounts@ == old(w).accounts@
                &&& final(w).secret == old(w).secret
                &&& final(w).scheduler == crate::scheduler::spec_start(old(w).scheduler, now)
                &&& r == Response::Acknowledged
            },
            Message::StopBackgroundSync => {
                &&& final(w).accounts@ == old(w).accounts@
                &&& final(w).secret == old(w).secret
                &&& final(w).scheduler == crate::scheduler::spec_stop(old(w).scheduler)
                &&& r == Response::Acknowledged
            },
        },
{
    match msg {
        Message::CreateAccount => {
            let ix = w.accounts.len();
            proof {
                assert(ix < 0xffff_ffff);
            }
            let account = AccountState::new_account(ix as u32);
            let copy = account.clone_account();
            w.accounts.push(account);
            Response::Account(copy)
        },
        Message::GetAccount(ix) => {
            if (ix as usize) < w.accounts.len() {
                Response::Account(w.accounts[ix as usize].clone_account())
            } else {
                Response::Error(WalletError::AccountNotFound)
            }
        },
        Message::GetAccounts => {
            let mut v: Vec<AccountState> = Vec::new();
            let mut i: usize = 0;
            while i < w.accounts.len()
                invariant
                    0 <= i <= w.accounts@.len(),
                    v@.len() == i,
                    forall|m: int|
                        0 <= m < i ==> (#[trigger] v@[m]).index == w.accounts@[m].index
                            && v@[m].outputs@ == w.accounts@[m].outputs@,
                decreases w.accounts@.len() - i,
            {
                let copy = w.accounts[i].clone_account();
                v.push(copy);
                i = i + 1;
            }
            Response::Accounts(v)
        },
        Message::CallAccountMethod(ix, m) => {
            if (ix as usize) < w.accounts.len() {
                dispatch_account_method(&w.accounts[ix as usize], &m)
            } else {
                Response::Error(WalletError::AccountNotFound)
            }
        },
        Message::SetStrongholdPassword(pw) => {
            w.secret.unlock(pw, now);
            Response::Acknowledged
        },
        Message::ClearStrongholdPassword => {
            w.secret.lock();
            Response::Acknowledged
        },
        Message::IsStrongholdPasswordAvailable => Response::StrongholdPasswordIsAvailable(
            w.secret.is_password_available(now),
        ),
        Message::SetStrongholdPasswordClearInterval(d) => {
            w.secret.set_clear_interval(d);
            Response::Acknowledged
        },
        Message::StartBackgroundSync => {
            w.scheduler.start(now);
            Response::Acknowledged
        },
        Message::StopBackgroundSync => {
            w.scheduler.stop();
            Response::Acknowledged
        },
    }
}

/// Serve one account query with the matching response variant.
pub fn dispatch_account_method(account: &AccountState, method: &AccountMethod) -> (r: Response)
    requires
        account.wf(),
    ensures
        spec_response_for(*account, *method, r),
{
    match method {
        AccountMethod::GetAccount => Response::Account(account.clone_account()),
        AccountMethod::ListAddresses => {
            let copy = account.clone_account();
            Response::Addresses(copy.addresses)
        },
        AccountMethod::ListAddressesWithUnspentOutputs => {
            let mut v: Vec<AddressInfo> = Vec::new();
            let mut i: usize = 0;
            while i < account.addresses.len()
                invariant
                    0 <= i <= account.addresses@.len(),
                    v@ == account.addresses@.take(i as int).filter(
                        |a: AddressInfo| has_unspent_at(account.outputs@, a.address),
                    ),
                decreases account.addresses@.len() - i,
            {
                let a = account.addresses[i];
                proof {
                    let pred = |a: AddressInfo| has_unspent_at(account.outputs@, a.address);
                    let cur = account.addresses@[i as int];
                    assert(account.addresses@.take(i + 1) =~= account.addresses@.take(i as int)
                        + seq![cur]);
                    Seq::filter_distributes_over_add(
                        account.addresses@.take(i as int),
                        seq![cur],
                        pred,
                    );
                    reveal_with_fuel(Seq::filter, 2);
                    assert(seq![cur].drop_last() =~= Seq::<AddressInfo>::empty());
                    if pred(cur) {
                        assert(seq![cur].filter(pred) =~= seq![cur]);
                        assert(account.addresses@.take(i as int).filter(pred) + seq![cur]
                            =~= account.addresses@.take(i as int).filter(pred).push(cur));
                    } else {
                        assert(seq![cur].filter(pred) =~= Seq::<AddressInfo>::empty());
                        assert(account.addresses@.take(i as int).filter(pred) + Seq::<
                            AddressInfo,
                        >::empty() =~= account.addresses@.take(i as int).filter(pred));
                    }
                }
                if has_unspent_at_exec(&account.outputs, a.address) {
                    v.push(a);
                }
                i = i + 1;
            }
            proof {
                assert(account.addresses@.take(account.addresses@.len() as int)
                    =~= account.addresses@);
            }
            Response::AddressesWithUnspentOutputs(v)
        },
        AccountMethod::ListOutputs => {
            let copy = account.clone_account();
            Response::Outputs(copy.outputs)
        },
        AccountMethod::ListUnspentOutputs => Response::Outputs(
            account.unspent_unlocked_outputs(),
        ),
        AccountMethod::ListTransactions => {
            let copy = account.clone_account();
            Response::Transactions(copy.transactions)
        },
        AccountMethod::GetBalance => Response::Balance(account.balance_summary()),
        AccountMethod::GetOutput(id) => Response::Output(account.get_output(*id)),
    }
}

} // verus!
