//! Core data model: output identifiers, outputs, addresses, transaction
//! records, and the spec-level balance function they are measured by.

use vstd::prelude::*;

verus! {

/// Token class of the ledger's base coin; native tokens use any other class id.
pub const BASE_TOKEN: u64 = 0;

/// Identifier of an output: the transaction that created it plus the output's
/// index inside that transaction.
#[derive(Clone, Copy, PartialEq, Eq, Structural, Debug, Hash)]
pub struct OutputId {
    pub tx_id: u64,
    pub index: u16,
}

/// Spend status of an output.  `Locked` names the local transaction that has
/// reserved the output for an in-flight transfer.  An output moves
/// unspent -> locked -> spent; only a failed or invalidated transfer moves it
/// back from locked to unspent.
#[derive(Clone, Copy, PartialEq, Eq, Structural, Debug)]
pub enum OutputStatus {
    Unspent,
    Locked { tx: u64 },
    Spent,
}

/// A spendable unit of value held by one of the account's addresses, with an
/// optional native-token class and an optional NFT payload.
#[derive(Clone, Copy, PartialEq, Eq, Debug)]
pub struct OutputData {
    pub id: OutputId,
    pub address: u64,
    pub amount: u64,
    pub token: u64,
    pub nft: Option<u64>,
    pub status: OutputStatus,
}

/// An address of the account: derivation index, internal (change) flag, the
/// address value itself, and the cached "has ever held outputs" flag.
#[derive(Clone, Copy, PartialEq, Eq, Structural, Debug)]
pub struct AddressInfo {
    pub key_index: u32,
    pub internal: bool,
    pub address: u64,
    pub used: bool,
}

/// Lifecycle of a locally created transaction.
#[derive(Clone, Copy, PartialEq, Eq, Structural, Debug)]
pub enum TxStatus {
    /// Reserved or submitted, awaiting ledger confirmation.
    Pending,
    /// The ledger spent the inputs under this transaction.
    Confirmed,
    /// The ledger spent an input under a different transaction (double spend).
    Invalidated,
    /// The signing pipeline failed; the inputs were released.
    Failed,
}

/// Record of a locally created transaction and the inputs it consumes.
#[derive(Clone, Debug)]
pub struct TxRecord {
    pub id: u64,
    pub inputs: Vec<OutputId>,
    pub status: TxStatus,
}

/// Mathematical value of a transaction record.
#[verifier::ext_equal]
pub ghost struct TxView {
    pub id: u64,
    pub inputs: Seq<OutputId>,
    pub status: TxStatus,
}

impl View for TxRecord {
    type V = TxView;

    open spec fn view(&self) -> TxView {
        TxView { id: self.id, inputs: self.inputs@, status: self.status }
    }
}

/// Mathematical value of a transaction record list.
pub open spec fn txs_view(s: Seq<TxRecord>) -> Seq<TxView> {
    s.map_values(|t: TxRecord| t@)
}

/// Copy of an output-identifier list.
pub fn copy_ids(v: &Vec<OutputId>) -> (r: Vec<OutputId>)
    ensures
        r@ == v@,
{
    let mut r: Vec<OutputId> = Vec::new();
    let mut i: usize = 0;
    while i < v.len()
        invariant
            0 <= i <= v.len(),
            r@ == v@.take(i as int),
        decreases v.len() - i,
    {
        r.push(v[i]);
        proof {
            assert(v@.take(i + 1) =~= v@.take(i as int).push(v@[i as int]));
        }
        i = i + 1;
    }
    proof {
        assert(v@.take(v@.len() as int) =~= v@);
    }
    r
}

/// Sum of the amounts of all outputs in the sequence.
pub open spec fn sum_amounts(s: Seq<OutputData>) -> int
    decreases s.len(),
{
    if s.len() == 0 {
        0
    } else {
        sum_amounts(s.drop_last()) + s.last().amount
    }
}

/// The outputs that count towards the spendable balance of a token class:
/// unspent and not locked by any pending transfer.
pub open spec fn class_outputs(s: Seq<OutputData>, token: u64) -> Seq<OutputData> {
    s.filter(|o: OutputData| o.token == token && o.status is Unspent)
}

/// Spendable balance of a token class: the sum over unspent, unlocked outputs
/// of that class.  Balance is always derived from the output set by this
/// function; the cached copy in the account state must equal it.
pub open spec fn balance_of(s: Seq<OutputData>, token: u64) -> int {
    sum_amounts(class_outputs(s, token))
}

/// Some output in the sequence carries this identifier.
pub open spec fn has_output_id(s: Seq<OutputData>, id: OutputId) -> bool {
    exists|i: int| 0 <= i < s.len() && s[i].id == id
}

/// Output identifiers are pairwise distinct.
pub open spec fn ids_unique(s: Seq<OutputData>) -> bool {
    forall|i: int, j: int| 0 <= i < j < s.len() ==> s[i].id != s[j].id
}

pub proof fn lemma_sum_bounds(s: Seq<OutputData>)
    ensures
        0 <= sum_amounts(s) <= s.len() * 0xffff_ffff_ffff_ffffu64,
    decreases s.len(),
{
    if s.len() > 0 {
        lemma_sum_bounds(s.drop_last());
    }
}

pub proof fn lemma_sum_first(s: Seq<OutputData>)
    requires
        s.len() > 0,
    ensures
        sum_amounts(s) == s.first().amount + sum_amounts(s.drop_first()),
    decreases s.len(),
{
    if s.len() == 1 {
        assert(s.drop_first() =~= Seq::<OutputData>::empty());
        assert(s.drop_last() =~= Seq::<OutputData>::empty());
    } else {
        lemma_sum_first(s.drop_last());
        assert(s.drop_last().first() == s.first());
        assert(s.drop_last().drop_first() =~= s.drop_first().drop_last());
        assert(s.drop_first().last() == s.last());
        assert(sum_amounts(s.drop_first()) == sum_amounts(s.drop_first().drop_last())
            + s.drop_first().last().amount);
    }
}

pub proof fn lemma_sum_push(s: Seq<OutputData>, o: OutputData)
    ensures
        sum_amounts(s.push(o)) == sum_amounts(s) + o.amount,
{
    assert(s.push(o).drop_last() =~= s);
}

pub proof fn lemma_sum_append(a: Seq<OutputData>, b: Seq<OutputData>)
    ensures
        sum_amounts(a + b) == sum_amounts(a) + sum_amounts(b),
    decreases b.len(),
{
    if b.len() == 0 {
        assert(a + b =~= a);
    } else {
        lemma_sum_append(a, b.drop_last());
        assert((a + b).drop_last() =~= a + b.drop_last());
        assert((a + b).last() == b.last());
    }
}

/// How a single output extends the balance of a class.
pub proof fn lemma_balance_push(s: Seq<OutputData>, o: OutputData, token: u64)
    ensures
        balance_of(s.push(o), token) == balance_of(s, token) + if o.token == token
            && o.status is Unspent {
            o.amount as int
        } else {
            0
        },
{
    let pred = |x: OutputData| x.token == token && x.status is Unspent;
    assert(s.push(o) =~= s + seq![o]);
    Seq::filter_distributes_over_add(s, seq![o], pred);
    reveal_with_fuel(Seq::filter, 2);
    assert(seq![o].drop_last() =~= Seq::<OutputData>::empty());
    if pred(o) {
        assert(seq![o].filter(pred) =~= seq![o]);
        lemma_sum_push(s.filter(pred), o);
        assert(s.filter(pred) + seq![o] =~= s.filter(pred).push(o));
    } else {
        assert(seq![o].filter(pred) =~= Seq::<OutputData>::empty());
        assert(s.filter(pred) + seq![o].filter(pred) =~= s.filter(pred));
    }
}

/// Balances never exceed the output count times the largest amount, so a
/// `u128` accumulator cannot overflow while summing them.
pub proof fn lemma_balance_bounds(s: Seq<OutputData>, token: u64)
    ensures
        0 <= balance_of(s, token) <= s.len() * 0xffff_ffff_ffff_ffffu64,
{
    let pred = |x: OutputData| x.token == token && x.status is Unspent;
    broadcast use vstd::seq_lib::group_filter_ensures;

    lemma_sum_bounds(s.filter(pred));
    assert(s.filter(pred).len() <= s.len());
    vstd::arithmetic::mul::lemma_mul_inequality(
        s.filter(pred).len() as int,
        s.len() as int,
        0xffff_ffff_ffff_ffffu64 as int,
    );
}

/// Spendable balance of one token class over an output list.
pub fn class_balance(outputs: &Vec<OutputData>, token: u64) -> (r: u128)
    ensures
        r == balance_of(outputs@, token),
{
    let mut acc: u128 = 0;
    let mut i: usize = 0;
    while i < outputs.len()
        invariant
            0 <= i <= outputs.len(),
            acc == balance_of(outputs@.take(i as int), token),
        decreases outputs.len() - i,
    {
        let o = outputs[i];
        proof {
            assert(outputs@.take(i + 1) =~= outputs@.take(i as int).push(outputs@[i as int]));
            lemma_balance_push(outputs@.take(i as int), outputs@[i as int], token);
            lemma_balance_bounds(outputs@.take(i as int), token);
            assert(i as int <= 0xffff_ffff_ffff_ffffu64 as int);
            vstd::arithmetic::mul::lemma_mul_inequality(
                i as int,
                0xffff_ffff_ffff_ffffu64 as int,
                0xffff_ffff_ffff_ffffu64 as int,
            );
        }
        if o.token == token && matches!(o.status, OutputStatus::Unspent) {
            acc = acc + o.amount as u128;
        }
        i = i + 1;
    }
    proof {
        assert(outputs@.take(outputs@.len() as int) =~= outputs@);
    }
    acc
}

/// Sum of the amounts of an output list, as an exec value.
pub fn sum_vec(outputs: &Vec<OutputData>) -> (r: u128)
    ensures
        r == sum_amounts(outputs@),
{
    let mut acc: u128 = 0;
    let mut i: usize = 0;
    while i < outputs.len()
        invariant
            0 <= i <= outputs.len(),
            acc == sum_amounts(outputs@.take(i as int)),
        decreases outputs.len() - i,
    {
        proof {
            assert(outputs@.take(i + 1) =~= outputs@.take(i as int).push(outputs@[i as int]));
            lemma_sum_push(outputs@.take(i as int), outputs@[i as int]);
            lemma_sum_bounds(outputs@.take(i as int));
            assert(i as int <= 0xffff_ffff_ffff_ffffu64 as int);
            vstd::arithmetic::mul::lemma_mul_inequality(
                i as int,
                0xffff_ffff_ffff_ffffu64 as int,
                0xffff_ffff_ffff_ffffu64 as int,
            );
        }
        acc = acc + outputs[i].amount as u128;
        i = i + 1;
    }
    proof {
        assert(outputs@.take(outputs@.len() as int) =~= outputs@);
    }
    acc
}

/// Index of the output carrying `id`, if the list holds it.
pub fn find_output(outputs: &Vec<OutputData>, id: OutputId) -> (r: Option<usize>)
    ensures
        match r {
            Some(i) => i < outputs.len() && outputs@[i as int].id == id,
            None => !has_output_id(outputs@, id),
        },
{
    let mut i: usize = 0;
    while i < outputs.len()
        invariant
            0 <= i <= outputs.len(),
            forall|k: int| 0 <= k < i ==> outputs@[k].id != id,
        decreases outputs.len() - i,
    {
        if outputs[i].id == id {
            return Some(i);
        }
        i = i + 1;
    }
    None
}

} // verus!
