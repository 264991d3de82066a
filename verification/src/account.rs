//! Per-account state: addresses, outputs, transaction records and the cached
//! balance, together with its two mutation entry points — `apply_sync_diff`
//! and `apply_transaction_result` — and the input reservation used by the
//! signing pipeline.  Mutation is exclusive per account: every mutator takes
//! the account by `&mut`, so a runtime wrapping each account in a
//! single-writer lock gets the atomicity the contracts state, and readers
//! never observe a partially applied diff.  The reservation of inputs is the
//! serialization point between a sync round and an in-flight transfer on
//! the same account.

use vstd::prelude::*;

use crate::error::WalletError;
use crate::types::AddressInfo;
use crate::types::OutputData;
use crate::types::OutputId;
use crate::types::OutputStatus;
use crate::types::TxRecord;
use crate::types::TxStatus;
use crate::types::TxView;
use crate::types::txs_view;
use crate::types::copy_ids;
use crate::types::balance_of;
use crate::types::class_balance;
use crate::types::find_output;
use crate::types::has_output_id;
use crate::types::ids_unique;
use crate::types::BASE_TOKEN;

verus! {

/// One entry of a sync diff's spent set: an output the ledger now reports as
/// consumed, and the transaction the ledger spent it under.
#[derive(Clone, Copy, PartialEq, Eq, Structural, Debug)]
pub struct SpentEntry {
    pub out: OutputId,
    pub spender: u64,
}

/// Durable snapshot of one account.
#[derive(Clone, Debug)]
pub struct AccountState {
    pub index: u32,
    pub addresses: Vec<AddressInfo>,
    pub outputs: Vec<OutputData>,
    pub transactions: Vec<TxRecord>,
    /// Cached spendable base-coin balance; the invariant ties it to
    /// `balance_of` over the current outputs.
    pub cached_base_balance: u128,
    /// Source of fresh local transaction ids; every recorded or locking
    /// transaction id lies below it.
    pub next_local_tx: u64,
}

/// Transaction record ids are pairwise distinct.
pub open spec fn tx_ids_unique(s: Seq<TxView>) -> bool {
    forall|i: int, j: int| 0 <= i < j < s.len() ==> s[i].id != s[j].id
}

/// Every locked output is referenced by exactly one pending transaction
/// record that lists it among its inputs.
pub open spec fn locked_linked(outs: Seq<OutputData>, txs: Seq<TxView>) -> bool {
    forall|i: int|
        0 <= i < outs.len() && outs[i].status is Locked ==> exists|j: int|
            0 <= j < txs.len() && txs[j].id == outs[i].status->tx && txs[j].status is Pending
                && txs[j].inputs.contains(outs[i].id)
}

/// Some entry of the spent set names this output identifier.
pub open spec fn in_spent(spent: Seq<SpentEntry>, id: OutputId) -> bool {
    exists|k: int| 0 <= k < spent.len() && spent[k].out == id
}

/// Entry `e` proves a double spend against local transaction `t`: the ledger
/// consumed an output that `t` has locked, under a different transaction.
pub open spec fn entry_invalidates(outs: Seq<OutputData>, e: SpentEntry, t: u64) -> bool {
    exists|i: int|
        0 <= i < outs.len() && outs[i].id == e.out && outs[i].status == (OutputStatus::Locked {
            tx: t,
        }) && e.spender != t
}

/// Entry `e` confirms local transaction `t`: the ledger consumed an output
/// that `t` has locked, under `t` itself.
pub open spec fn entry_confirms(outs: Seq<OutputData>, e: SpentEntry, t: u64) -> bool {
    exists|i: int|
        0 <= i < outs.len() && outs[i].id == e.out && outs[i].status == (OutputStatus::Locked {
            tx: t,
        }) && e.spender == t
}

/// The diff shows a double spend against local transaction `t`.
pub open spec fn diff_invalidates(outs: Seq<OutputData>, spent: Seq<SpentEntry>, t: u64) -> bool {
    exists|k: int| 0 <= k < spent.len() && entry_invalidates(outs, spent[k], t)
}

/// The diff shows the ledger executing local transaction `t`.
pub open spec fn diff_confirms(outs: Seq<OutputData>, spent: Seq<SpentEntry>, t: u64) -> bool {
    exists|k: int| 0 <= k < spent.len() && entry_confirms(outs, spent[k], t)
}

/// New state of one output under a sync diff.  An output the ledger reports
/// spent becomes spent; an output locked by a transaction the diff
/// invalidates is released (double-spend handling takes precedence over
/// confirmation); an output locked by a transaction the diff confirms is
/// spent; anything else is untouched.
pub open spec fn apply_to_output(o: OutputData, outs: Seq<OutputData>, spent: Seq<SpentEntry>)
    -> OutputData {
    if in_spent(spent, o.id) {
        OutputData {
            id: o.id,
            address: o.address,
            amount: o.amount,
            token: o.token,
            nft: o.nft,
            status: OutputStatus::Spent,
        }
    } else if o.status is Locked && diff_invalidates(outs, spent, o.status->tx) {
        OutputData {
            id: o.id,
            address: o.address,
            amount: o.amount,
            token: o.token,
            nft: o.nft,
            status: OutputStatus::Unspent,
        }
    } else if o.status is Locked && diff_confirms(outs, spent, o.status->tx) {
        OutputData {
            id: o.id,
            address: o.address,
            amount: o.amount,
            token: o.token,
            nft: o.nft,
            status: OutputStatus::Spent,
        }
    } else {
        o
    }
}

/// Spent-marking pass of a sync diff over the whole output list.
pub open spec fn mark_outputs(outs: Seq<OutputData>, spent: Seq<SpentEntry>) -> Seq<OutputData> {
    outs.map_values(|o: OutputData| apply_to_output(o, outs, spent))
}

/// Merge pass of a sync diff: append each newly seen output whose identifier
/// the account does not already hold; re-applying a known output is a no-op.
pub open spec fn merge_new(outs: Seq<OutputData>, new: Seq<OutputData>) -> Seq<OutputData>
    decreases new.len(),
{
    if new.len() == 0 {
        outs
    } else {
        let rest = merge_new(outs, new.drop_last());
        if has_output_id(outs, new.last().id) {
            rest
        } else {
            rest.push(new.last())
        }
    }
}

/// New state of one transaction record under a sync diff.
pub open spec fn apply_to_tx(t: TxView, outs: Seq<OutputData>, spent: Seq<SpentEntry>) -> TxView {
    if t.status is Pending && diff_invalidates(outs, spent, t.id) {
        TxView { id: t.id, inputs: t.inputs, status: TxStatus::Invalidated }
    } else if t.status is Pending && diff_confirms(outs, spent, t.id) {
        TxView { id: t.id, inputs: t.inputs, status: TxStatus::Confirmed }
    } else {
        t
    }
}

/// Transaction pass of a sync diff over the whole record list.
pub open spec fn mark_txs(txs: Seq<TxView>, outs: Seq<OutputData>, spent: Seq<SpentEntry>)
    -> Seq<TxView> {
    txs.map_values(|t: TxView| apply_to_tx(t, outs, spent))
}

/// Output list after a sync diff: merge the newly seen outputs, then mark.
pub open spec fn spec_apply_outputs(
    outs: Seq<OutputData>,
    new: Seq<OutputData>,
    spent: Seq<SpentEntry>,
) -> Seq<OutputData> {
    mark_outputs(merge_new(outs, new), spent)
}

/// Transaction list after a sync diff.
pub open spec fn spec_apply_txs(
    txs: Seq<TxView>,
    outs: Seq<OutputData>,
    new: Seq<OutputData>,
    spent: Seq<SpentEntry>,
) -> Seq<TxView> {
    mark_txs(txs, merge_new(outs, new), spent)
}

/// A well-formed sync diff: newly seen outputs come in unspent and with
/// pairwise distinct identifiers.
pub open spec fn sync_diff_wf(new: Seq<OutputData>, spent: Seq<SpentEntry>) -> bool {
    ids_unique(new) && forall|i: int| 0 <= i < new.len() ==> new[i].status is Unspent
}

pub proof fn lemma_has_push(s: Seq<OutputData>, o: OutputData, id: OutputId)
    ensures
        has_output_id(s.push(o), id) <==> (has_output_id(s, id) || o.id == id),
{
    if has_output_id(s, id) {
        let i = choose|i: int| 0 <= i < s.len() && s[i].id == id;
        assert(s.push(o)[i].id == id);
    }
    if o.id == id {
        assert(s.push(o)[s.len() as int].id == id);
    }
    if has_output_id(s.push(o), id) && o.id != id {
        let i = choose|i: int| 0 <= i < s.push(o).len() && s.push(o)[i].id == id;
        assert(0 <= i < s.len());
        assert(s[i].id == id);
    }
}

/// The merged list holds exactly the identifiers of the two sides.
pub proof fn lemma_merge_ids(outs: Seq<OutputData>, new: Seq<OutputData>, id: OutputId)
    ensures
        has_output_id(merge_new(outs, new), id) <==> (has_output_id(outs, id) || has_output_id(
            new,
            id,
        )),
    decreases new.len(),
{
    if new.len() == 0 {
        assert(!has_output_id(new, id));
    } else {
        lemma_merge_ids(outs, new.drop_last(), id);
        let rest = merge_new(outs, new.drop_last());
        assert(has_output_id(new, id) <==> (has_output_id(new.drop_last(), id) || new.last().id
            == id)) by {
            assert(new.drop_last().push(new.last()) =~= new);
            lemma_has_push(new.drop_last(), new.last(), id);
        }
        if !has_output_id(outs, new.last().id) {
            lemma_has_push(rest, new.last(), id);
        }
    }
}

/// Shape of the merged list: the old outputs stay in place as a prefix, every
/// element comes from one of the two sides, and identifiers stay distinct.
pub proof fn lemma_merge_props(outs: Seq<OutputData>, new: Seq<OutputData>)
    requires
        ids_unique(outs),
        ids_unique(new),
    ensures
        ids_unique(merge_new(outs, new)),
        merge_new(outs, new).len() >= outs.len(),
        forall|i: int| 0 <= i < outs.len() ==> merge_new(outs, new)[i] == outs[i],
        forall|i: int|
            0 <= i < merge_new(outs, new).len() ==> outs.contains(merge_new(outs, new)[i])
                || new.contains(merge_new(outs, new)[i]),
    decreases new.len(),
{
    if new.len() == 0 {
        assert(forall|i: int| 0 <= i < outs.len() ==> outs.contains(outs[i]));
    } else {
        assert(ids_unique(new.drop_last()));
        lemma_merge_props(outs, new.drop_last());
        let rest = merge_new(outs, new.drop_last());
        let m = merge_new(outs, new);
        assert(forall|i: int|
            0 <= i < rest.len() && (outs.contains(rest[i]) || new.drop_last().contains(rest[i]))
                ==> outs.contains(rest[i]) || new.contains(rest[i])) by {
            assert(forall|x: OutputData| new.drop_last().contains(x) ==> new.contains(x)) by {
                assert forall|x: OutputData| new.drop_last().contains(x) implies new.contains(
                    x,
                ) by {
                    let i = choose|i: int|
                        0 <= i < new.drop_last().len() && new.drop_last()[i] == x;
                    assert(new[i] == x);
                }
            }
        }
        if !has_output_id(outs, new.last().id) {
            assert(m == rest.push(new.last()));
            assert(new.contains(new.last())) by {
                assert(new[new.len() - 1] == new.last());
            }
            // the appended identifier is fresh in `rest`
            assert(!has_output_id(rest, new.last().id)) by {
                lemma_merge_ids(outs, new.drop_last(), new.last().id);
                assert(!has_output_id(new.drop_last(), new.last().id)) by {
                    if has_output_id(new.drop_last(), new.last().id) {
                        let i = choose|i: int|
                            0 <= i < new.drop_last().len() && new.drop_last()[i].id
                                == new.last().id;
                        assert(new[i].id == new[new.len() - 1].id);
                        assert(false);
                    }
                }
            }
            assert(ids_unique(m)) by {
                assert forall|i: int, j: int| 0 <= i < j < m.len() implies m[i].id != m[j].id by {
                    if j < rest.len() {
                    } else {
                        assert(m[j] == new.last());
                        if m[i].id == new.last().id {
                            assert(has_output_id(rest, new.last().id));
                        }
                    }
                }
            }
        }
    }
}

/// When every newly seen identifier is already present, the merge pass is a
/// no-op.
pub proof fn lemma_merge_absorbed(outs: Seq<OutputData>, new: Seq<OutputData>)
    requires
        forall|i: int| 0 <= i < new.len() ==> has_output_id(outs, new[i].id),
    ensures
        merge_new(outs, new) == outs,
    decreases new.len(),
{
    if new.len() > 0 {
        lemma_merge_absorbed(outs, new.drop_last());
        assert(has_output_id(outs, new.last().id)) by {
            assert(new[new.len() - 1] == new.last());
        }
    }
}

/// A sync diff carries every well-formedness clause of the account state
/// across: distinct identifiers, transaction links for every output that
/// stays locked, and the bound on local transaction ids.
pub proof fn lemma_apply_sync_wf(
    outs: Seq<OutputData>,
    txs: Seq<TxView>,
    new: Seq<OutputData>,
    spent: Seq<SpentEntry>,
    nxt: u64,
)
    requires
        ids_unique(outs),
        tx_ids_unique(txs),
        locked_linked(outs, txs),
        sync_diff_wf(new, spent),
        forall|j: int| 0 <= j < txs.len() ==> txs[j].id < nxt,
        forall|i: int|
            0 <= i < outs.len() && outs[i].status is Locked ==> outs[i].status->tx < nxt,
    ensures
        ids_unique(spec_apply_outputs(outs, new, spent)),
        tx_ids_unique(spec_apply_txs(txs, outs, new, spent)),
        locked_linked(spec_apply_outputs(outs, new, spent), spec_apply_txs(txs, outs, new, spent)),
        forall|j: int|
            0 <= j < spec_apply_txs(txs, outs, new, spent).len() ==> spec_apply_txs(
                txs,
                outs,
                new,
                spent,
            )[j].id < nxt,
        forall|i: int|
            0 <= i < spec_apply_outputs(outs, new, spent).len() && spec_apply_outputs(
                outs,
                new,
                spent,
            )[i].status is Locked ==> spec_apply_outputs(outs, new, spent)[i].status->tx < nxt,
{
    lemma_merge_props(outs, new);
    let m = merge_new(outs, new);
    let ro = spec_apply_outputs(outs, new, spent);
    let rt = spec_apply_txs(txs, outs, new, spent);
    assert(forall|i: int| 0 <= i < m.len() ==> ro[i] == apply_to_output(m[i], m, spent));
    assert(forall|i: int| 0 <= i < m.len() ==> #[trigger] ro[i].id == m[i].id);
    assert(forall|j: int| 0 <= j < txs.len() ==> rt[j] == apply_to_tx(txs[j], m, spent));
    // a locked result is an untouched locked input from the old output list
    assert forall|i: int| 0 <= i < ro.len() && #[trigger] ro[i].status is Locked implies ro[i]
        == m[i] && outs.contains(m[i]) && !diff_invalidates(m, spent, ro[i].status->tx)
        && !diff_confirms(m, spent, ro[i].status->tx) by {
        if new.contains(m[i]) {
            let w = choose|w: int| 0 <= w < new.len() && new[w] == m[i];
            assert(new[w].status is Unspent);
        }
    }
    assert forall|i: int| 0 <= i < ro.len() && #[trigger] ro[i].status is Locked implies exists|
        j: int,
    |
        0 <= j < rt.len() && rt[j].id == ro[i].status->tx && rt[j].status is Pending
            && rt[j].inputs.contains(ro[i].id) by {
        let t = ro[i].status->tx;
        let i0 = choose|i0: int| 0 <= i0 < outs.len() && outs[i0] == m[i];
        assert(outs[i0].status is Locked && outs[i0].status->tx == t);
        let j = choose|j: int|
            0 <= j < txs.len() && txs[j].id == t && txs[j].status is Pending
                && txs[j].inputs.contains(outs[i0].id);
        assert(rt[j] == apply_to_tx(txs[j], m, spent));
        assert(rt[j].id == t && rt[j].status is Pending && rt[j].inputs.contains(ro[i].id));
    }
    assert forall|i: int| 0 <= i < ro.len() && #[trigger] ro[i].status is Locked implies ro[i]
        .status->tx < nxt by {
        let i0 = choose|i0: int| 0 <= i0 < outs.len() && outs[i0] == m[i];
        assert(outs[i0].status is Locked);
    }
}

/// Status of the output carrying `id`, if the list holds it.  On a list with
/// distinct identifiers this names the status of the one such output.
pub open spec fn status_of(outs: Seq<OutputData>, id: OutputId) -> Option<OutputStatus> {
    if has_output_id(outs, id) {
        let i = choose|i: int| 0 <= i < outs.len() && outs[i].id == id;
        Some(outs[i].status)
    } else {
        None
    }
}

pub proof fn lemma_status_of(outs: Seq<OutputData>, id: OutputId, i: int)
    requires
        ids_unique(outs),
        0 <= i < outs.len(),
        outs[i].id == id,
    ensures
        status_of(outs, id) == Some(outs[i].status),
{
    assert(has_output_id(outs, id));
    let j = choose|j: int| 0 <= j < outs.len() && outs[j].id == id;
    if j < i {
        assert(outs[j].id != outs[i].id);
    } else if i < j {
        assert(outs[i].id != outs[j].id);
    }
}

/// First failure a reservation of `ids` (checked in order) hits: an unknown
/// output, or one that is already locked or spent.  `None` means every named
/// output is unspent and the reservation succeeds.
pub open spec fn reserve_err(outs: Seq<OutputData>, ids: Seq<OutputId>) -> Option<WalletError>
    decreases ids.len(),
{
    if ids.len() == 0 {
        None
    } else {
        match status_of(outs, ids.first()) {
            Option::None => Some(WalletError::OutputNotFound),
            Option::Some(st) => if st is Unspent {
                reserve_err(outs, ids.drop_first())
            } else {
                Some(WalletError::OutputLocked)
            },
        }
    }
}

/// Output list after a successful reservation: every named output is locked
/// by local transaction `t`.
pub open spec fn spec_reserve(outs: Seq<OutputData>, ids: Seq<OutputId>, t: u64) -> Seq<
    OutputData,
> {
    outs.map_values(
        |o: OutputData|
            if ids.contains(o.id) {
                OutputData {
                    id: o.id,
                    address: o.address,
                    amount: o.amount,
                    token: o.token,
                    nft: o.nft,
                    status: OutputStatus::Locked { tx: t },
                }
            } else {
                o
            },
    )
}

/// Output list after a failed transfer attempt: every output locked by `t`
/// returns to the unspent state.
pub open spec fn spec_release(outs: Seq<OutputData>, t: u64) -> Seq<OutputData> {
    outs.map_values(
        |o: OutputData|
            if o.status == (OutputStatus::Locked { tx: t }) {
                OutputData {
                    id: o.id,
                    address: o.address,
                    amount: o.amount,
                    token: o.token,
                    nft: o.nft,
                    status: OutputStatus::Unspent,
                }
            } else {
                o
            },
    )
}

/// Transaction list after a failed transfer attempt: the pending record of
/// `t` is marked failed.
pub open spec fn spec_fail_tx(txs: Seq<TxView>, t: u64) -> Seq<TxView> {
    txs.map_values(
        |x: TxView|
            if x.id == t && x.status is Pending {
                TxView { id: x.id, inputs: x.inputs, status: TxStatus::Failed }
            } else {
                x
            },
    )
}

/// A reservation that hits no failure found every named output unspent.
pub proof fn lemma_reserve_ok_unspent(outs: Seq<OutputData>, ids: Seq<OutputId>)
    requires
        reserve_err(outs, ids) is None,
    ensures
        forall|k: int|
            0 <= k < ids.len() ==> status_of(outs, ids[k]) == Some(OutputStatus::Unspent),
    decreases ids.len(),
{
    if ids.len() > 0 {
        lemma_reserve_ok_unspent(outs, ids.drop_first());
        assert forall|k: int| 0 <= k < ids.len() implies status_of(outs, ids[k]) == Some(
            OutputStatus::Unspent,
        ) by {
            if k == 0 {
                assert(ids[0] == ids.first());
            } else {
                assert(ids.drop_first()[k - 1] == ids[k]);
            }
        }
    }
}

fn in_spent_exec(spent: &Vec<SpentEntry>, id: OutputId) -> (b: bool)
    ensures
        b == in_spent(spent@, id),
{
    let mut k: usize = 0;
    while k < spent.len()
        invariant
            0 <= k <= spent.len(),
            forall|m: int| 0 <= m < k ==> spent@[m].out != id,
        decreases spent.len() - k,
    {
        if spent[k].out == id {
            return true;
        }
        k = k + 1;
    }
    false
}

fn entry_hits_exec(outputs: &Vec<OutputData>, e: SpentEntry, t: u64, same_tx: bool) -> (b: bool)
    ensures
        same_tx ==> b == entry_confirms(outputs@, e, t),
        !same_tx ==> b == entry_invalidates(outputs@, e, t),
{
    let mut i: usize = 0;
    while i < outputs.len()
        invariant
            0 <= i <= outputs.len(),
            forall|m: int|
                0 <= m < i ==> !(outputs@[m].id == e.out && outputs@[m].status
                    == (OutputStatus::Locked { tx: t }) && (if same_tx {
                    e.spender == t
                } else {
                    e.spender != t
                })),
        decreases outputs.len() - i,
    {
        let o = outputs[i];
        if o.id == e.out && o.status == (OutputStatus::Locked { tx: t }) && (if same_tx {
            e.spender == t
        } else {
            e.spender != t
        }) {
            return true;
        }
        i = i + 1;
    }
    false
}

fn contains_id_exec(ids: &Vec<OutputId>, id: OutputId) -> (b: bool)
    ensures
        b == ids@.contains(id),
{
    let mut k: usize = 0;
    while k < ids.len()
        invariant
            0 <= k <= ids.len(),
            forall|m: int| 0 <= m < k ==> ids@[m] != id,
        decreases ids.len() - k,
    {
        if ids[k] == id {
            return true;
        }
        k = k + 1;
    }
    false
}

fn diff_invalidates_exec(outputs: &Vec<OutputData>, spent: &Vec<SpentEntry>, t: u64) -> (b: bool)
    ensures
        b == diff_invalidates(outputs@, spent@, t),
{
    let mut k: usize = 0;
    while k < spent.len()
        invariant
            0 <= k <= spent.len(),
            forall|m: int| 0 <= m < k ==> !entry_invalidates(outputs@, spent@[m], t),
        decreases spent.len() - k,
    {
        if entry_hits_exec(outputs, spent[k], t, false) {
            return true;
        }
        k = k + 1;
    }
    false
}

fn diff_confirms_exec(outputs: &Vec<OutputData>, spent: &Vec<SpentEntry>, t: u64) -> (b: bool)
    ensures
        b == diff_confirms(outputs@, spent@, t),
{
    let mut k: usize = 0;
    while k < spent.len()
        invariant
            0 <= k <= spent.len(),
            forall|m: int| 0 <= m < k ==> !entry_confirms(outputs@, spent@[m], t),
        decreases spent.len() - k,
    {
        if entry_hits_exec(outputs, spent[k], t, true) {
            return true;
        }
        k = k + 1;
    }
    false
}

impl AccountState {
    /// Well-formedness of an account snapshot: distinct output and
    /// transaction ids, locked outputs tied to pending records, the cached
    /// balance equal to the derived one, and all transaction ids below the
    /// fresh-id source.
    pub open spec fn wf(self) -> bool {
        &&& ids_unique(self.outputs@)
        &&& tx_ids_unique(txs_view(self.transactions@))
        &&& locked_linked(self.outputs@, txs_view(self.transactions@))
        &&& self.cached_base_balance == balance_of(self.outputs@, BASE_TOKEN)
        &&& forall|j: int|
            0 <= j < self.transactions@.len() ==> self.transactions@[j].id < self.next_local_tx
        &&& forall|i: int|
            0 <= i < self.outputs@.len() && self.outputs@[i].status is Locked
                ==> self.outputs@[i].status->tx < self.next_local_tx
    }

    /// A fresh, empty account with the given index.
    pub fn new_account(index: u32) -> (r: AccountState)
        ensures
            r.wf(),
            r.index == index,
            r.addresses@ =~= Seq::<AddressInfo>::empty(),
            r.outputs@ =~= Seq::<OutputData>::empty(),
            r.transactions@ =~= Seq::<TxRecord>::empty(),
            r.cached_base_balance == 0,
    {
        proof {
            reveal_with_fuel(crate::types::sum_amounts, 2);
            reveal_with_fuel(Seq::filter, 2);
        }
        AccountState {
            index,
            addresses: Vec::new(),
            outputs: Vec::new(),
            transactions: Vec::new(),
            cached_base_balance: 0,
            next_local_tx: 0,
        }
    }

    /// Spendable balance of one token class, read from the output set.
    pub fn balance(&self, token: u64) -> (r: u128)
        ensures
            r == balance_of(self.outputs@, token),
    {
        class_balance(&self.outputs, token)
    }

    /// Cached base-coin balance; equal to the derived balance on any
    /// well-formed account.
    pub fn base_balance(&self) -> (r: u128)
        requires
            self.wf(),
        ensures
            r == balance_of(self.outputs@, BASE_TOKEN),
    {
        self.cached_base_balance
    }

    /// The outputs a transfer may draw on: unspent and unlocked.
    pub fn unspent_unlocked_outputs(&self) -> (r: Vec<OutputData>)
        ensures
            r@ == self.outputs@.filter(|o: OutputData| o.status is Unspent),
    {
        let mut r: Vec<OutputData> = Vec::new();
        let mut i: usize = 0;
        while i < self.outputs.len()
            invariant
                0 <= i <= self.outputs.len(),
                r@ == self.outputs@.take(i as int).filter(|o: OutputData| o.status is Unspent),
            decreases self.outputs.len() - i,
        {
            let o = self.outputs[i];
            proof {
                let pred = |o: OutputData| o.status is Unspent;
                assert(self.outputs@.take(i + 1) =~= self.outputs@.take(i as int).push(
                    self.outputs@[i as int],
                ));
                Seq::filter_distributes_over_add(
                    self.outputs@.take(i as int),
                    seq![self.outputs@[i as int]],
                    pred,
                );
                assert(self.outputs@.take(i as int).push(self.outputs@[i as int])
                    =~= self.outputs@.take(i as int) + seq![self.outputs@[i as int]]);
                reveal_with_fuel(Seq::filter, 2);
                assert(seq![self.outputs@[i as int]].drop_last()
                    =~= Seq::<OutputData>::empty());
                if pred(self.outputs@[i as int]) {
                    assert(seq![self.outputs@[i as int]].filter(pred)
                        =~= seq![self.outputs@[i as int]]);
                } else {
                    assert(seq![self.outputs@[i as int]].filter(pred)
                        =~= Seq::<OutputData>::empty());
                    assert(self.outputs@.take(i as int).filter(pred) + Seq::<
                        OutputData,
                    >::empty() =~= self.outputs@.take(i as int).filter(pred));
                }
            }
            if matches!(o.status, OutputStatus::Unspent) {
                r.push(o);
            }
            i = i + 1;
        }
        proof {
            assert(self.outputs@.take(self.outputs@.len() as int) =~= self.outputs@);
        }
        r
    }

    /// Reconcile this account with a sync diff computed against the ledger:
    /// merge the newly seen outputs (idempotently), mark the reported-spent
    /// outputs, resolve pending transactions the diff confirms or
    /// invalidates, release the inputs of invalidated transactions, and
    /// recompute the cached balance.
    pub fn apply_sync_diff(&mut self, new_outputs: &Vec<OutputData>, spent: &Vec<SpentEntry>)
        requires
            old(self).wf(),
            sync_diff_wf(new_outputs@, spent@),
        ensures
            final(self).wf(),
            final(self).outputs@ == spec_apply_outputs(old(self).outputs@, new_outputs@, spent@),
            txs_view(final(self).transactions@) == spec_apply_txs(
                txs_view(old(self).transactions@),
                old(self).outputs@,
                new_outputs@,
                spent@,
            ),
            final(self).addresses@ == old(self).addresses@,
            final(self).index == old(self).index,
            final(self).next_local_tx == old(self).next_local_tx,
            final(self).cached_base_balance == balance_of(final(self).outputs@, BASE_TOKEN),
    {
        let ghost old_outs = self.outputs@;
        // merge pass: append each newly seen output whose id is unknown
        let mut j: usize = 0;
        while j < new_outputs.len()
            invariant
                0 <= j <= new_outputs.len(),
                old(self).wf(),
                sync_diff_wf(new_outputs@, spent@),
                old_outs == old(self).outputs@,
                self.outputs@ == merge_new(old_outs, new_outputs@.take(j as int)),
                self.index == old(self).index,
                self.addresses == old(self).addresses,
                self.transactions == old(self).transactions,
                self.cached_base_balance == old(self).cached_base_balance,
                self.next_local_tx == old(self).next_local_tx,
            decreases new_outputs.len() - j,
        {
            let o = new_outputs[j];
            proof {
                lemma_merge_ids(old_outs, new_outputs@.take(j as int), o.id);
                if has_output_id(new_outputs@.take(j as int), o.id) {
                    let k = choose|k: int|
                        0 <= k < j && new_outputs@.take(j as int)[k].id == o.id;
                    assert(new_outputs@[k].id == new_outputs@[j as int].id);
                    assert(false);
                }
            }
            let present = match find_output(&self.outputs, o.id) {
                Some(_) => true,
                None => false,
            };
            if !present {
                self.outputs.push(o);
            }
            proof {
                assert(new_outputs@.take(j + 1).drop_last() =~= new_outputs@.take(j as int));
                assert(new_outputs@.take(j + 1).last() == new_outputs@[j as int]);
                assert(self.outputs@ == merge_new(old_outs, new_outputs@.take(j + 1)));
            }
            j = j + 1;
        }
        proof {
            assert(new_outputs@.take(new_outputs@.len() as int) =~= new_outputs@);
        }
        let ghost merged = self.outputs@;
        // marking pass over outputs, computed against the merged snapshot
        let mut updated: Vec<OutputData> = Vec::new();
        let mut i: usize = 0;
        while i < self.outputs.len()
            invariant
                0 <= i <= self.outputs.len(),
                self.outputs@ == merged,
                updated@.len() == i,
                forall|k: int|
                    0 <= k < i ==> updated@[k] == apply_to_output(merged[k], merged, spent@),
                self.index == old(self).index,
                self.addresses == old(self).addresses,
                self.transactions == old(self).transactions,
                self.cached_base_balance == old(self).cached_base_balance,
                self.next_local_tx == old(self).next_local_tx,
            decreases self.outputs.len() - i,
        {
            let o = self.outputs[i];
            let stat: OutputStatus;
            if in_spent_exec(spent, o.id) {
                stat = OutputStatus::Spent;
            } else {
                match o.status {
                    OutputStatus::Locked { tx } => {
                        if diff_invalidates_exec(&self.outputs, spent, tx) {
                            stat = OutputStatus::Unspent;
                        } else if diff_confirms_exec(&self.outputs, spent, tx) {
                            stat = OutputStatus::Spent;
                        } else {
                            stat = o.status;
                        }
                    },
                    _ => {
                        stat = o.status;
                    },
                }
            }
            updated.push(
                OutputData {
                    id: o.id,
                    address: o.address,
                    amount: o.amount,
                    token: o.token,
                    nft: o.nft,
                    status: stat,
                },
            );
            i = i + 1;
        }
        // transaction pass, still computed against the merged snapshot
        let ghost old_txs = txs_view(self.transactions@);
        let mut new_txs: Vec<TxRecord> = Vec::new();
        let mut k: usize = 0;
        while k < self.transactions.len()
            invariant
                0 <= k <= self.transactions.len(),
                self.outputs@ == merged,
                self.transactions == old(self).transactions,
                old_txs == txs_view(old(self).transactions@),
                new_txs@.len() == k,
                forall|m: int|
                    0 <= m < k ==> #[trigger] new_txs@[m]@ == apply_to_tx(
                        old_txs[m],
                        merged,
                        spent@,
                    ),
                self.index == old(self).index,
                self.addresses == old(self).addresses,
                self.cached_base_balance == old(self).cached_base_balance,
                self.next_local_tx == old(self).next_local_tx,
            decreases self.transactions.len() - k,
        {
            let t_id = self.transactions[k].id;
            let t_status = self.transactions[k].status;
            let mut st = t_status;
            if matches!(t_status, TxStatus::Pending) {
                if diff_invalidates_exec(&self.outputs, spent, t_id) {
                    st = TxStatus::Invalidated;
                } else if diff_confirms_exec(&self.outputs, spent, t_id) {
                    st = TxStatus::Confirmed;
                }
            }
            let inputs2 = copy_ids(&self.transactions[k].inputs);
            new_txs.push(TxRecord { id: t_id, inputs: inputs2, status: st });
            proof {
                assert(old_txs[k as int] == self.transactions@[k as int]@);
                assert(new_txs@[k as int]@ == apply_to_tx(old_txs[k as int], merged, spent@));
            }
            k = k + 1;
        }
        proof {
            assert(updated@ =~= mark_outputs(merged, spent@));
            assert(txs_view(new_txs@) =~= mark_txs(old_txs, merged, spent@));
            lemma_apply_sync_wf(
                old(self).outputs@,
                old_txs,
                new_outputs@,
                spent@,
                old(self).next_local_tx,
            );
            assert(forall|m: int|
                0 <= m < new_txs@.len() ==> #[trigger] new_txs@[m].id == txs_view(new_txs@)[m].id);
        }
        self.outputs = updated;
        self.transactions = new_txs;
        let bal = class_balance(&self.outputs, BASE_TOKEN);
        self.cached_base_balance = bal;
    }

    /// Reserve the named outputs for a new transfer: atomically lock all of
    /// them under a fresh local transaction id and record the pending
    /// transaction, or fail without touching any state.  Exactly one of two
    /// overlapping reservations can succeed: the second finds the contested
    /// output no longer unspent.
    pub fn reserve_inputs(&mut self, input_ids: &Vec<OutputId>) -> (r: Result<u64, WalletError>)
        requires
            old(self).wf(),
            old(self).next_local_tx < u64::MAX,
        ensures
            final(self).wf(),
            match r {
                Result::Ok(t) => {
                    &&& reserve_err(old(self).outputs@, input_ids@) is None
                    &&& t == old(self).next_local_tx
                    &&& final(self).outputs@ == spec_reserve(old(self).outputs@, input_ids@, t)
                    &&& txs_view(final(self).transactions@) == txs_view(
                        old(self).transactions@,
                    ).push((TxView { id: t, inputs: input_ids@, status: TxStatus::Pending }))
                    &&& final(self).next_local_tx == old(self).next_local_tx + 1
                    &&& final(self).addresses@ == old(self).addresses@
                    &&& final(self).index == old(self).index
                },
                Result::Err(e) => Some(e) == reserve_err(old(self).outputs@, input_ids@)
                    && *final(self) == *old(self),
            },
    {
        // check phase: find the first unavailable input, touching nothing
        proof {
            assert(input_ids@.skip(0) =~= input_ids@);
        }
        let mut k: usize = 0;
        while k < input_ids.len()
            invariant
                0 <= k <= input_ids.len(),
                *self == *old(self),
                old(self).wf(),
                reserve_err(self.outputs@, input_ids@) == reserve_err(
                    self.outputs@,
                    input_ids@.skip(k as int),
                ),
            decreases input_ids.len() - k,
        {
            let id = input_ids[k];
            proof {
                assert(input_ids@.skip(k as int).first() == input_ids@[k as int]);
                assert(input_ids@.skip(k as int).drop_first() =~= input_ids@.skip(k + 1));
            }
            match find_output(&self.outputs, id) {
                Some(i) => {
                    proof {
                        lemma_status_of(self.outputs@, id, i as int);
                    }
                    if !matches!(self.outputs[i].status, OutputStatus::Unspent) {
                        return Err(WalletError::OutputLocked);
                    }
                },
                None => {
                    return Err(WalletError::OutputNotFound);
                },
            }
            k = k + 1;
        }
        proof {
            assert(input_ids@.skip(input_ids@.len() as int) =~= Seq::<OutputId>::empty());
        }
        // lock phase: every named output is unspent; lock them all
        let t = self.next_local_tx;
        let ghost old_outs = self.outputs@;
        let mut updated: Vec<OutputData> = Vec::new();
        let mut i: usize = 0;
        while i < self.outputs.len()
            invariant
                0 <= i <= self.outputs.len(),
                *self == *old(self),
                updated@.len() == i,
                old_outs == old(self).outputs@,
                t == old(self).next_local_tx,
                forall|m: int|
                    0 <= m < i ==> updated@[m] == spec_reserve(old_outs, input_ids@, t)[m],
            decreases self.outputs.len() - i,
        {
            let o = self.outputs[i];
            if contains_id_exec(input_ids, o.id) {
                updated.push(
                    OutputData {
                        id: o.id,
                        address: o.address,
                        amount: o.amount,
                        token: o.token,
                        nft: o.nft,
                        status: OutputStatus::Locked { tx: t },
                    },
                );
            } else {
                updated.push(o);
            }
            i = i + 1;
        }
        proof {
            assert(updated@ =~= spec_reserve(old_outs, input_ids@, t));
        }
        self.outputs = updated;
        let rec_inputs = copy_ids(input_ids);
        self.transactions.push(TxRecord { id: t, inputs: rec_inputs, status: TxStatus::Pending });
        self.next_local_tx = t + 1;
        let bal = class_balance(&self.outputs, BASE_TOKEN);
        self.cached_base_balance = bal;
        proof {
            let r = spec_reserve(old_outs, input_ids@, t);
            let newtx = TxView { id: t, inputs: input_ids@, status: TxStatus::Pending };
            assert(txs_view(self.transactions@) =~= txs_view(old(self).transactions@).push(newtx));
            let rt = txs_view(self.transactions@);
            assert(forall|m: int|
                0 <= m < old(self).transactions@.len() ==> rt[m] == txs_view(
                    old(self).transactions@,
                )[m]);
            assert(forall|m: int| 0 <= m < r.len() ==> #[trigger] r[m].id == old_outs[m].id);
            assert forall|a: int, b: int| 0 <= a < b < r.len() implies r[a].id != r[b].id by {
                assert(old_outs[a].id != old_outs[b].id);
            }
            assert forall|a: int|
                0 <= a < r.len() && #[trigger] r[a].status is Locked implies exists|j: int|
                0 <= j < rt.len() && rt[j].id == r[a].status->tx && rt[j].status is Pending
                    && rt[j].inputs.contains(r[a].id) by {
                if input_ids@.contains(old_outs[a].id) {
                    let j = rt.len() - 1;
                    assert(rt[j] == newtx);
                    assert(rt[j].inputs.contains(r[a].id));
                } else {
                    let t0 = old_outs[a].status->tx;
                    let j = choose|j: int|
                        0 <= j < txs_view(old(self).transactions@).len() && txs_view(
                            old(self).transactions@,
                        )[j].id == t0 && txs_view(old(self).transactions@)[j].status is Pending
                            && txs_view(old(self).transactions@)[j].inputs.contains(
                            old_outs[a].id,
                        );
                    assert(rt[j] == txs_view(old(self).transactions@)[j]);
                }
            }
            assert(forall|m: int|
                0 <= m < self.transactions@.len() ==> #[trigger] self.transactions@[m].id
                    == rt[m].id);
        }
        Ok(t)
    }

    /// Record the outcome of a submitted transfer.  An accepted submission
    /// leaves the state as the reservation built it: inputs locked and the
    /// transaction pending until sync observes it on the ledger.  A rejected
    /// or failed attempt releases every reserved input back to unspent and
    /// marks the transaction failed, leaving no other trace.
    pub fn apply_transaction_result(&mut self, tx_id: u64, accepted: bool)
        requires
            old(self).wf(),
        ensures
            final(self).wf(),
            accepted ==> *final(self) == *old(self),
            !accepted ==> {
                &&& final(self).outputs@ == spec_release(old(self).outputs@, tx_id)
                &&& txs_view(final(self).transactions@) == spec_fail_tx(
                    txs_view(old(self).transactions@),
                    tx_id,
                )
                &&& final(self).addresses@ == old(self).addresses@
                &&& final(self).next_local_tx == old(self).next_local_tx
                &&& final(self).index == old(self).index
            },
    {
        if accepted {
            return ;
        }
        let ghost old_outs = self.outputs@;
        let mut updated: Vec<OutputData> = Vec::new();
        let mut i: usize = 0;
        while i < self.outputs.len()
            invariant
                0 <= i <= self.outputs.len(),
                *self == *old(self),
                updated@.len() == i,
                old_outs == old(self).outputs@,
                forall|m: int| 0 <= m < i ==> updated@[m] == spec_release(old_outs, tx_id)[m],
            decreases self.outputs.len() - i,
        {
            let o = self.outputs[i];
            if o.status == (OutputStatus::Locked { tx: tx_id }) {
                updated.push(
                    OutputData {
                        id: o.id,
                        address: o.address,
                        amount: o.amount,
                        token: o.token,
                        nft: o.nft,
                        status: OutputStatus::Unspent,
                    },
                );
            } else {
                updated.push(o);
            }
            i = i + 1;
        }
        proof {
            assert(updated@ =~= spec_release(old_outs, tx_id));
        }
        let ghost old_txs = txs_view(self.transactions@);
        let mut new_txs: Vec<TxRecord> = Vec::new();
        let mut k: usize = 0;
        while k < self.transactions.len()
            invariant
                0 <= k <= self.transactions.len(),
                *self == *old(self),
                new_txs@.len() == k,
                old_txs == txs_view(old(self).transactions@),
                forall|m: int|
                    0 <= m < k ==> #[trigger] new_txs@[m]@ == spec_fail_tx(old_txs, tx_id)[m],
            decreases self.transactions.len() - k,
        {
            let rec = &self.transactions[k];
            let st = if rec.id == tx_id && matches!(rec.status, TxStatus::Pending) {
                TxStatus::Failed
            } else {
                rec.status
            };
            let inputs2 = copy_ids(&rec.inputs);
            new_txs.push(TxRecord { id: rec.id, inputs: inputs2, status: st });
            proof {
                assert(old_txs[k as int] == self.transactions@[k as int]@);
            }
            k = k + 1;
        }
        proof {
            assert(txs_view(new_txs@) =~= spec_fail_tx(old_txs, tx_id));
        }
        self.outputs = updated;
        self.transactions = new_txs;
        let bal = class_balance(&self.outputs, BASE_TOKEN);
        self.cached_base_balance = bal;
        proof {
            let r = self.outputs@;
            let rt = txs_view(self.transactions@);
            assert(forall|m: int| 0 <= m < r.len() ==> #[trigger] r[m].id == old_outs[m].id);
            assert forall|a: int, b: int| 0 <= a < b < r.len() implies r[a].id != r[b].id by {
                assert(old_outs[a].id != old_outs[b].id);
            }
            assert(forall|m: int| 0 <= m < rt.len() ==> #[trigger] rt[m].id == old_txs[m].id);
            assert forall|a: int|
                0 <= a < r.len() && #[trigger] r[a].status is Locked implies exists|j: int|
                0 <= j < rt.len() && rt[j].id == r[a].status->tx && rt[j].status is Pending
                    && rt[j].inputs.contains(r[a].id) by {
                let t0 = old_outs[a].status->tx;
                assert(old_outs[a].status is Locked && t0 != tx_id);
                let j = choose|j: int|
                    0 <= j < old_txs.len() && old_txs[j].id == t0 && old_txs[j].status is Pending
                        && old_txs[j].inputs.contains(old_outs[a].id);
                assert(rt[j] == old_txs[j]);
            }
            assert(forall|m: int|
                0 <= m < self.transactions@.len() ==> #[trigger] self.transactions@[m].id
                    == rt[m].id);
        }
    }

    /// The output carrying `id`, if the account knows it.
    pub fn get_output(&self, id: OutputId) -> (r: Option<OutputData>)
        ensures
            match r {
                Some(o) => has_output_id(self.outputs@, id) && o.id == id
                    && self.outputs@.contains(o),
                None => !has_output_id(self.outputs@, id),
            },
    {
        match find_output(&self.outputs, id) {
            Some(i) => {
                let o = self.outputs[i];
                proof {
                    assert(self.outputs@.contains(self.outputs@[i as int]));
                }
                Some(o)
            },
            None => None,
        }
    }
}

/// Some output with this identifier is counted unspent.
pub open spec fn counted_unspent(outs: Seq<OutputData>, id: OutputId) -> bool {
    exists|i: int| 0 <= i < outs.len() && outs[i].id == id && outs[i].status is Unspent
}

/// Some output with this identifier is counted locked.
pub open spec fn counted_locked(outs: Seq<OutputData>, id: OutputId) -> bool {
    exists|i: int| 0 <= i < outs.len() && outs[i].id == id && outs[i].status is Locked
}

/// Some output with this identifier is counted spent.
pub open spec fn counted_spent(outs: Seq<OutputData>, id: OutputId) -> bool {
    exists|i: int| 0 <= i < outs.len() && outs[i].id == id && outs[i].status is Spent
}

/// On every well-formed account the cached balance equals the sum of amounts
/// over outputs currently unspent and unlocked; each mutation entry point
/// preserves well-formedness, so the equality holds after any sequence of
/// sync diffs, reservations and transfer results.  Per-class balances are
/// derived by `balance_of` directly, which partitions by token class.
pub proof fn lemma_cached_balance_invariant(s: AccountState)
    requires
        s.wf(),
    ensures
        s.cached_base_balance == balance_of(s.outputs@, BASE_TOKEN),
{
}

/// An output identifier is never counted in two spend states at once: on a
/// well-formed account, unspent, locked and spent are mutually exclusive for
/// any given identifier.
pub proof fn lemma_status_mutual_exclusion(s: AccountState, id: OutputId)
    requires
        s.wf(),
    ensures
        !(counted_unspent(s.outputs@, id) && counted_locked(s.outputs@, id)),
        !(counted_unspent(s.outputs@, id) && counted_spent(s.outputs@, id)),
        !(counted_locked(s.outputs@, id) && counted_spent(s.outputs@, id)),
{
    let outs = s.outputs@;
    if counted_unspent(outs, id) && counted_locked(outs, id) {
        let i = choose|i: int| 0 <= i < outs.len() && outs[i].id == id && outs[i].status is Unspent;
        let j = choose|j: int| 0 <= j < outs.len() && outs[j].id == id && outs[j].status is Locked;
        assert(i != j);
        if i < j {
            assert(outs[i].id != outs[j].id);
        } else {
            assert(outs[j].id != outs[i].id);
        }
    }
    if counted_unspent(outs, id) && counted_spent(outs, id) {
        let i = choose|i: int| 0 <= i < outs.len() && outs[i].id == id && outs[i].status is Unspent;
        let j = choose|j: int| 0 <= j < outs.len() && outs[j].id == id && outs[j].status is Spent;
        assert(i != j);
        if i < j {
            assert(outs[i].id != outs[j].id);
        } else {
            assert(outs[j].id != outs[i].id);
        }
    }
    if counted_locked(outs, id) && counted_spent(outs, id) {
        let i = choose|i: int| 0 <= i < outs.len() && outs[i].id == id && outs[i].status is Locked;
        let j = choose|j: int| 0 <= j < outs.len() && outs[j].id == id && outs[j].status is Spent;
        assert(i != j);
        if i < j {
            assert(outs[i].id != outs[j].id);
        } else {
            assert(outs[j].id != outs[i].id);
        }
    }
}

/// Applying the same sync diff twice produces the same account state as
/// applying it once: the second merge pass finds every identifier present,
/// the second marking pass finds every reported-spent output already spent
/// and no output still locked by an affected transaction.
pub proof fn lemma_sync_diff_idempotent(
    outs: Seq<OutputData>,
    txs: Seq<TxView>,
    new: Seq<OutputData>,
    spent: Seq<SpentEntry>,
)
    requires
        ids_unique(outs),
        sync_diff_wf(new, spent),
    ensures
        spec_apply_outputs(spec_apply_outputs(outs, new, spent), new, spent) == spec_apply_outputs(
            outs,
            new,
            spent,
        ),
        spec_apply_txs(
            spec_apply_txs(txs, outs, new, spent),
            spec_apply_outputs(outs, new, spent),
            new,
            spent,
        ) == spec_apply_txs(txs, outs, new, spent),
{
    lemma_merge_props(outs, new);
    let m = merge_new(outs, new);
    let o1 = spec_apply_outputs(outs, new, spent);
    let t1 = spec_apply_txs(txs, outs, new, spent);
    assert(forall|i: int| 0 <= i < m.len() ==> o1[i] == apply_to_output(m[i], m, spent));
    assert(forall|i: int| 0 <= i < m.len() ==> #[trigger] o1[i].id == m[i].id);
    // the second merge pass is a no-op: every newly seen id is present
    assert forall|i: int| 0 <= i < new.len() implies has_output_id(o1, new[i].id) by {
        lemma_merge_ids(outs, new, new[i].id);
        assert(has_output_id(new, new[i].id));
        let w = choose|w: int| 0 <= w < m.len() && m[w].id == new[i].id;
        assert(o1[w].id == new[i].id);
    }
    lemma_merge_absorbed(o1, new);
    // after marking, every reported-spent identifier is spent
    assert(forall|i: int|
        0 <= i < o1.len() && in_spent(spent, #[trigger] o1[i].id) ==> o1[i].status is Spent);
    // hence the diff invalidates or confirms nothing on the marked state
    assert forall|t: u64| !diff_invalidates(o1, spent, t) && !diff_confirms(o1, spent, t) by {
        if diff_invalidates(o1, spent, t) {
            let k = choose|k: int| 0 <= k < spent.len() && entry_invalidates(o1, spent[k], t);
            let i = choose|i: int|
                0 <= i < o1.len() && o1[i].id == spent[k].out && o1[i].status
                    == (OutputStatus::Locked { tx: t }) && spent[k].spender != t;
            assert(in_spent(spent, o1[i].id));
        }
        if diff_confirms(o1, spent, t) {
            let k = choose|k: int| 0 <= k < spent.len() && entry_confirms(o1, spent[k], t);
            let i = choose|i: int|
                0 <= i < o1.len() && o1[i].id == spent[k].out && o1[i].status
                    == (OutputStatus::Locked { tx: t }) && spent[k].spender == t;
            assert(in_spent(spent, o1[i].id));
        }
    }
    // so the second marking pass returns each output and record unchanged
    assert forall|i: int| 0 <= i < o1.len() implies apply_to_output(o1[i], o1, spent) == o1[i] by {
        if in_spent(spent, o1[i].id) {
            assert(o1[i].status is Spent);
        }
    }
    assert(mark_outputs(o1, spent) =~= o1);
    assert(spec_apply_outputs(o1, new, spent) == mark_outputs(o1, spent));
    assert forall|j: int| 0 <= j < t1.len() implies apply_to_tx(t1[j], o1, spent) == t1[j] by {
        assert(!diff_invalidates(o1, spent, t1[j].id));
        assert(!diff_confirms(o1, spent, t1[j].id));
    }
    assert(mark_txs(t1, o1, spent) =~= t1);
    assert(spec_apply_txs(t1, o1, new, spent) == mark_txs(t1, merge_new(o1, new), spent));
}

/// Monotone spend lifecycle under sync: a spent output stays spent, an
/// unspent output can only become spent, and a locked output leaves its
/// lock only forward (spent) or through the double-spend release back to
/// unspent — never in any other direction, and sync never locks anything.
pub proof fn lemma_sync_monotone(
    outs: Seq<OutputData>,
    new: Seq<OutputData>,
    spent: Seq<SpentEntry>,
)
    requires
        ids_unique(outs),
        sync_diff_wf(new, spent),
    ensures
        forall|i: int|
            0 <= i < outs.len() ==> {
                let before = (#[trigger] outs[i]).status;
                let after = spec_apply_outputs(outs, new, spent)[i].status;
                &&& (before is Spent ==> after is Spent)
                &&& (before is Unspent ==> after is Unspent || after is Spent)
                &&& (before is Locked ==> after is Spent || after is Unspent || after == before)
            },
{
    lemma_merge_props(outs, new);
    let m = merge_new(outs, new);
    assert(forall|i: int|
        0 <= i < m.len() ==> spec_apply_outputs(outs, new, spent)[i] == apply_to_output(
            m[i],
            m,
            spent,
        ));
}

/// A failed signing-pipeline attempt leaks no locks: releasing the
/// transaction that reserved a set of unspent inputs restores the output
/// list exactly as it was before the reservation.
pub proof fn lemma_failed_attempt_restores(outs: Seq<OutputData>, ids: Seq<OutputId>, t: u64)
    requires
        ids_unique(outs),
        reserve_err(outs, ids) is None,
        forall|i: int| 0 <= i < outs.len() ==> outs[i].status != (OutputStatus::Locked { tx: t }),
    ensures
        spec_release(spec_reserve(outs, ids, t), t) == outs,
{
    lemma_reserve_ok_unspent(outs, ids);
    let r = spec_reserve(outs, ids, t);
    assert forall|i: int| 0 <= i < outs.len() implies spec_release(r, t)[i] == outs[i] by {
        if ids.contains(outs[i].id) {
            let k = choose|k: int| 0 <= k < ids.len() && ids[k] == outs[i].id;
            lemma_status_of(outs, ids[k], i);
            assert(outs[i].status is Unspent);
        }
    }
    assert(spec_release(r, t) =~= outs);
}

/// The lock-release law at the account level: on a well-formed account,
/// reserving any available input set under the account's fresh local id and
/// then releasing that id restores the output list exactly — the freshness
/// of the id comes from well-formedness, so no caller obligation is needed
/// beyond a reservation that succeeds.
pub proof fn lemma_reserve_release_roundtrip(s: AccountState, ids: Seq<OutputId>)
    requires
        s.wf(),
        reserve_err(s.outputs@, ids) is None,
    ensures
        spec_release(spec_reserve(s.outputs@, ids, s.next_local_tx), s.next_local_tx)
            == s.outputs@,
{
    assert forall|i: int| 0 <= i < s.outputs@.len() implies s.outputs@[i].status
        != (OutputStatus::Locked { tx: s.next_local_tx }) by {
        if s.outputs@[i].status == (OutputStatus::Locked { tx: s.next_local_tx }) {
            assert(s.outputs@[i].status->tx < s.next_local_tx);
        }
    }
    lemma_failed_attempt_restores(s.outputs@, ids, s.next_local_tx);
}

/// Exactly-once spending: once a reservation has locked an output, any
/// further reservation that names the same output fails with a resource
/// error rather than succeeding as well.
pub proof fn lemma_no_double_reservation(
    outs: Seq<OutputData>,
    ids1: Seq<OutputId>,
    ids2: Seq<OutputId>,
    id: OutputId,
    t: u64,
)
    requires
        ids_unique(outs),
        ids1.contains(id),
        ids2.contains(id),
        has_output_id(outs, id),
    ensures
        !(reserve_err(spec_reserve(outs, ids1, t), ids2) is None),
{
    let r = spec_reserve(outs, ids1, t);
    let i = choose|i: int| 0 <= i < outs.len() && outs[i].id == id;
    assert(r[i].id == id && r[i].status == (OutputStatus::Locked { tx: t }));
    assert(forall|m: int| 0 <= m < r.len() ==> #[trigger] r[m].id == outs[m].id);
    assert(ids_unique(r)) by {
        assert forall|a: int, b: int| 0 <= a < b < r.len() implies r[a].id != r[b].id by {
            assert(outs[a].id != outs[b].id);
        }
    }
    if reserve_err(r, ids2) is None {
        lemma_reserve_ok_unspent(r, ids2);
        let k = choose|k: int| 0 <= k < ids2.len() && ids2[k] == id;
        lemma_status_of(r, id, i);
        assert(status_of(r, ids2[k]) == Some(OutputStatus::Unspent));
    }
}

/// Double-spend detection during sync: when the ledger reports an output
/// locked by a local pending transaction as spent under a different
/// transaction, the sync diff marks the output spent and invalidates the
/// local pending transaction.
pub proof fn lemma_double_spend_detection(
    outs: Seq<OutputData>,
    txs: Seq<TxView>,
    new: Seq<OutputData>,
    spent: Seq<SpentEntry>,
    i: int,
    k: int,
    j: int,
)
    requires
        ids_unique(outs),
        sync_diff_wf(new, spent),
        0 <= i < outs.len(),
        0 <= k < spent.len(),
        0 <= j < txs.len(),
        outs[i].status is Locked,
        spent[k].out == outs[i].id,
        spent[k].spender != outs[i].status->tx,
        txs[j].id == outs[i].status->tx,
        txs[j].status is Pending,
    ensures
        spec_apply_outputs(outs, new, spent)[i].status is Spent,
        spec_apply_txs(txs, outs, new, spent)[j].status is Invalidated,
{
    lemma_merge_props(outs, new);
    let m = merge_new(outs, new);
    let t = outs[i].status->tx;
    assert(m[i] == outs[i]);
    assert(in_spent(spent, m[i].id));
    assert(spec_apply_outputs(outs, new, spent)[i] == apply_to_output(m[i], m, spent));
    assert(entry_invalidates(m, spent[k], t)) by {
        assert(m[i].id == spent[k].out && m[i].status == (OutputStatus::Locked { tx: t }));
    }
    assert(diff_invalidates(m, spent, t));
    assert(spec_apply_txs(txs, outs, new, spent)[j] == apply_to_tx(txs[j], m, spent));
}

} // verus!
