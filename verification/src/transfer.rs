//! Transfer builder: turns a transfer intent and the account's spendable
//! outputs into an unsigned transaction essence.  Input selection prefers a
//! single exact match and otherwise accumulates candidates first-fit in list
//! order; dust protection, remainder construction and the protocol limits on
//! inputs and outputs are applied before any network interaction.

use vstd::prelude::*;

use crate::error::WalletError;
use crate::types::OutputData;
use crate::types::lemma_sum_bounds;
use crate::types::lemma_sum_first;
use crate::types::lemma_sum_push;
use crate::types::lemma_sum_append;
use crate::types::sum_amounts;
use crate::types::sum_vec;

verus! {

/// One recipient of a transfer intent.
#[derive(Clone, Copy, PartialEq, Eq, Structural, Debug)]
pub struct Recipient {
    pub address: u64,
    pub amount: u64,
    pub token: u64,
}

/// A transfer intent: recipients plus strategy flags.
#[derive(Clone, Debug)]
pub struct TransferIntent {
    pub recipients: Vec<Recipient>,
    /// Allow creating outputs below the dust minimum.
    pub allow_dust: bool,
    /// Send any remainder here instead of back to the sender's own address.
    pub remainder_address: Option<u64>,
}

/// Ledger policy parameters for building one transaction.
#[derive(Clone, Copy, Debug)]
pub struct SelectionConfig {
    /// Smallest amount a standalone output may carry (dust protection).
    pub dust_min: u64,
    /// Protocol limit on inputs per transaction.
    pub max_inputs: usize,
    /// Protocol limit on outputs per transaction.
    pub max_outputs: usize,
}

/// One output to be created by a transfer.
#[derive(Clone, Copy, PartialEq, Eq, Debug)]
pub struct OutputSketch {
    pub address: u64,
    pub amount: u64,
    pub token: u64,
    pub nft: Option<u64>,
    pub is_remainder: bool,
}

/// An unsigned transaction essence: the selected inputs and the outputs the
/// transaction will create.
#[derive(Clone, Debug)]
pub struct TransactionEssence {
    pub inputs: Vec<OutputData>,
    pub outputs: Vec<OutputSketch>,
}

/// Mathematical value of an essence.
#[verifier::ext_equal]
pub ghost struct EssenceView {
    pub inputs: Seq<OutputData>,
    pub outputs: Seq<OutputSketch>,
}

impl View for TransactionEssence {
    type V = EssenceView;

    open spec fn view(&self) -> EssenceView {
        EssenceView { inputs: self.inputs@, outputs: self.outputs@ }
    }
}

/// The selection target is met: the recipients' total is covered and the
/// excess is zero, at least the dust minimum, or allowed as dust.
pub open spec fn sel_done(total: int, needed: int, dust_min: u64, allow_dust: bool) -> bool {
    total >= needed && (allow_dust || total == needed || total - needed >= dust_min)
}

/// Index of the first candidate of the class whose amount matches the target
/// exactly.
pub open spec fn find_exact(cands: Seq<OutputData>, token: u64, needed: int) -> Option<int>
    decreases cands.len(),
{
    if cands.len() == 0 {
        None
    } else if cands.first().token == token && cands.first().amount == needed {
        Some(0)
    } else {
        match find_exact(cands.drop_first(), token, needed) {
            Option::Some(i) => Some(i + 1),
            Option::None => None,
        }
    }
}

/// First-fit accumulation: walk the candidates in order, keep those of the
/// requested class, and stop as soon as the target is met.
pub open spec fn first_fit(
    cands: Seq<OutputData>,
    token: u64,
    needed: int,
    dust_min: u64,
    allow_dust: bool,
    acc: Seq<OutputData>,
) -> Seq<OutputData>
    decreases cands.len(),
{
    if sel_done(sum_amounts(acc), needed, dust_min, allow_dust) {
        acc
    } else if cands.len() == 0 {
        acc
    } else if cands.first().token == token {
        first_fit(cands.drop_first(), token, needed, dust_min, allow_dust, acc.push(cands.first()))
    } else {
        first_fit(cands.drop_first(), token, needed, dust_min, allow_dust, acc)
    }
}

/// Deterministic input selection: a single exact match if one exists, else
/// first-fit accumulation over the candidate list in order.
pub open spec fn spec_select(
    cands: Seq<OutputData>,
    token: u64,
    needed: int,
    dust_min: u64,
    allow_dust: bool,
) -> Seq<OutputData> {
    match find_exact(cands, token, needed) {
        Option::Some(i) => seq![cands[i]],
        Option::None => first_fit(cands, token, needed, dust_min, allow_dust, Seq::empty()),
    }
}

/// Total spendable amount the candidate list offers in one token class.
pub open spec fn class_total(cands: Seq<OutputData>, token: u64) -> int {
    sum_amounts(cands.filter(|o: OutputData| o.token == token))
}

/// Splitting off the first candidate splits the class total.
pub proof fn lemma_class_total_first(cands: Seq<OutputData>, token: u64)
    requires
        cands.len() > 0,
    ensures
        class_total(cands, token) == (if cands.first().token == token {
            cands.first().amount as int
        } else {
            0
        }) + class_total(cands.drop_first(), token),
{
    let pred = |o: OutputData| o.token == token;
    assert(cands =~= seq![cands.first()] + cands.drop_first());
    Seq::filter_distributes_over_add(seq![cands.first()], cands.drop_first(), pred);
    reveal_with_fuel(Seq::filter, 2);
    assert(seq![cands.first()].drop_last() =~= Seq::<OutputData>::empty());
    if pred(cands.first()) {
        assert(seq![cands.first()].filter(pred) =~= seq![cands.first()]);
    } else {
        assert(seq![cands.first()].filter(pred) =~= Seq::<OutputData>::empty());
    }
    lemma_sum_append(seq![cands.first()].filter(pred), cands.drop_first().filter(pred));
    lemma_sum_push(Seq::<OutputData>::empty(), cands.first());
    assert(Seq::<OutputData>::empty().push(cands.first()) =~= seq![cands.first()]);
}

/// What first-fit selects never exceeds what the class offers.
pub proof fn lemma_first_fit_sum_bound(
    cands: Seq<OutputData>,
    token: u64,
    needed: int,
    dust_min: u64,
    allow_dust: bool,
    acc: Seq<OutputData>,
)
    ensures
        sum_amounts(first_fit(cands, token, needed, dust_min, allow_dust, acc)) <= sum_amounts(acc)
            + class_total(cands, token),
        class_total(cands, token) >= 0,
    decreases cands.len(),
{
    broadcast use vstd::seq_lib::group_filter_ensures;

    lemma_sum_bounds(cands.filter(|o: OutputData| o.token == token));
    if !sel_done(sum_amounts(acc), needed, dust_min, allow_dust) && cands.len() > 0 {
        lemma_class_total_first(cands, token);
        if cands.first().token == token {
            lemma_first_fit_sum_bound(
                cands.drop_first(),
                token,
                needed,
                dust_min,
                allow_dust,
                acc.push(cands.first()),
            );
            lemma_sum_push(acc, cands.first());
        } else {
            lemma_first_fit_sum_bound(cands.drop_first(), token, needed, dust_min, allow_dust, acc);
        }
    }
}

/// When first-fit stops short of the target it has taken the whole class.
pub proof fn lemma_first_fit_exhausts(
    cands: Seq<OutputData>,
    token: u64,
    needed: int,
    dust_min: u64,
    allow_dust: bool,
    acc: Seq<OutputData>,
)
    requires
        !sel_done(
            sum_amounts(first_fit(cands, token, needed, dust_min, allow_dust, acc)),
            needed,
            dust_min,
            allow_dust,
        ),
    ensures
        sum_amounts(first_fit(cands, token, needed, dust_min, allow_dust, acc)) == sum_amounts(acc)
            + class_total(cands, token),
    decreases cands.len(),
{
    if sel_done(sum_amounts(acc), needed, dust_min, allow_dust) {
        assert(false);
    } else if cands.len() == 0 {
        reveal_with_fuel(Seq::filter, 1);
        assert(cands.filter(|o: OutputData| o.token == token) =~= Seq::<OutputData>::empty());
    } else {
        lemma_class_total_first(cands, token);
        if cands.first().token == token {
            lemma_first_fit_exhausts(
                cands.drop_first(),
                token,
                needed,
                dust_min,
                allow_dust,
                acc.push(cands.first()),
            );
            lemma_sum_push(acc, cands.first());
        } else {
            lemma_first_fit_exhausts(cands.drop_first(), token, needed, dust_min, allow_dust, acc);
        }
    }
}

/// The class total never exceeds the total over all candidates.
pub proof fn lemma_class_total_le(cands: Seq<OutputData>, token: u64)
    ensures
        0 <= class_total(cands, token) <= sum_amounts(cands),
    decreases cands.len(),
{
    if cands.len() == 0 {
        reveal_with_fuel(Seq::filter, 1);
        assert(cands.filter(|o: OutputData| o.token == token) =~= Seq::<OutputData>::empty());
    } else {
        lemma_class_total_first(cands, token);
        lemma_class_total_le(cands.drop_first(), token);
        lemma_sum_first(cands);
    }
}

/// A single class member's amount never exceeds the class total.
pub proof fn lemma_class_member_le(cands: Seq<OutputData>, token: u64, i: int)
    requires
        0 <= i < cands.len(),
        cands[i].token == token,
    ensures
        cands[i].amount <= class_total(cands, token),
    decreases cands.len(),
{
    lemma_class_total_first(cands, token);
    if i == 0 {
        lemma_class_total_le(cands.drop_first(), token);
    } else {
        lemma_class_member_le(cands.drop_first(), token, i - 1);
        assert(cands.drop_first()[i - 1] == cands[i]);
    }
}

/// The index an exact match points at carries the class and the target.
pub proof fn lemma_find_exact_props(cands: Seq<OutputData>, token: u64, needed: int)
    ensures
        match find_exact(cands, token, needed) {
            Option::Some(i) => 0 <= i < cands.len() && cands[i].token == token && cands[i].amount
                == needed,
            Option::None => true,
        },
    decreases cands.len(),
{
    if cands.len() > 0 {
        lemma_find_exact_props(cands.drop_first(), token, needed);
        if !(cands.first().token == token && cands.first().amount == needed) {
            if find_exact(cands.drop_first(), token, needed) is Some {
                let j = find_exact(cands.drop_first(), token, needed)->0;
                assert(cands.drop_first()[j] == cands[j + 1]);
            }
        }
    }
}

/// What selection picks never exceeds what the class offers.
pub proof fn lemma_select_le_class(
    cands: Seq<OutputData>,
    token: u64,
    needed: int,
    dust_min: u64,
    allow_dust: bool,
)
    ensures
        sum_amounts(spec_select(cands, token, needed, dust_min, allow_dust)) <= class_total(
            cands,
            token,
        ),
        sum_amounts(spec_select(cands, token, needed, dust_min, allow_dust)) >= 0,
{
    lemma_find_exact_props(cands, token, needed);
    match find_exact(cands, token, needed) {
        Option::Some(i) => {
            lemma_class_member_le(cands, token, i);
            lemma_sum_push(Seq::<OutputData>::empty(), cands[i]);
            assert(Seq::<OutputData>::empty().push(cands[i]) =~= seq![cands[i]]);
        },
        Option::None => {
            lemma_first_fit_sum_bound(
                cands,
                token,
                needed,
                dust_min,
                allow_dust,
                Seq::<OutputData>::empty(),
            );
            lemma_sum_bounds(spec_select(cands, token, needed, dust_min, allow_dust));
        },
    }
}

/// Selection falls short of the target exactly when the class as a whole
/// cannot cover it: insufficient funds is a property of the candidate set,
/// not of the selection order.
pub proof fn lemma_insufficient_iff(
    cands: Seq<OutputData>,
    token: u64,
    needed: int,
    dust_min: u64,
    allow_dust: bool,
)
    ensures
        (sum_amounts(spec_select(cands, token, needed, dust_min, allow_dust)) < needed)
            <==> class_total(cands, token) < needed,
{
    let sel = spec_select(cands, token, needed, dust_min, allow_dust);
    lemma_find_exact_props(cands, token, needed);
    lemma_select_le_class(cands, token, needed, dust_min, allow_dust);
    match find_exact(cands, token, needed) {
        Option::Some(i) => {
            lemma_sum_push(Seq::<OutputData>::empty(), cands[i]);
            assert(Seq::<OutputData>::empty().push(cands[i]) =~= seq![cands[i]]);
            assert(sum_amounts(sel) == needed);
            lemma_class_member_le(cands, token, i);
        },
        Option::None => {
            if sum_amounts(sel) < needed {
                assert(!sel_done(sum_amounts(sel), needed, dust_min, allow_dust));
                lemma_first_fit_exhausts(
                    cands,
                    token,
                    needed,
                    dust_min,
                    allow_dust,
                    Seq::<OutputData>::empty(),
                );
            } else {
                if class_total(cands, token) < needed {
                    assert(sum_amounts(sel) <= class_total(cands, token));
                }
            }
        },
    }
}

/// Sum of the amounts a recipient list asks for.
pub open spec fn sum_recipients(rs: Seq<Recipient>) -> int
    decreases rs.len(),
{
    if rs.len() == 0 {
        0
    } else {
        sum_recipients(rs.drop_last()) + rs.last().amount
    }
}

pub proof fn lemma_recip_sum_push(s: Seq<Recipient>, r: Recipient)
    ensures
        sum_recipients(s.push(r)) == sum_recipients(s) + r.amount,
{
    assert(s.push(r).drop_last() =~= s);
}

pub proof fn lemma_recip_sum_bounds(s: Seq<Recipient>)
    ensures
        0 <= sum_recipients(s) <= s.len() * 0xffff_ffff_ffff_ffffu64,
    decreases s.len(),
{
    if s.len() > 0 {
        lemma_recip_sum_bounds(s.drop_last());
    }
}

/// The output a transfer creates for one recipient.
pub open spec fn sketch_of(r: Recipient) -> OutputSketch {
    OutputSketch {
        address: r.address,
        amount: r.amount,
        token: r.token,
        nft: None,
        is_remainder: false,
    }
}

/// The address a remainder output returns to.
pub open spec fn remainder_target(remainder_address: Option<u64>, sender: u64) -> u64 {
    match remainder_address {
        Option::Some(a) => a,
        Option::None => sender,
    }
}

/// Result of building one essence for recipients that all share one token
/// class, over the given candidate outputs.  This pins the whole transfer
/// builder: the order of validation, the selected inputs, the constructed
/// outputs and the remainder.
pub open spec fn spec_prepare(
    cands: Seq<OutputData>,
    recips: Seq<Recipient>,
    allow_dust: bool,
    remainder_address: Option<u64>,
    cfg: SelectionConfig,
    sender: u64,
) -> Result<EssenceView, WalletError> {
    let token = recips.first().token;
    let needed = sum_recipients(recips);
    if recips.len() == 0 {
        Err(WalletError::EmptyIntent)
    } else if exists|i: int| 0 <= i < recips.len() && (#[trigger] recips[i]).amount == 0 {
        Err(WalletError::ZeroAmount)
    } else if !allow_dust && exists|i: int|
        0 <= i < recips.len() && (#[trigger] recips[i]).amount < cfg.dust_min {
        Err(WalletError::DustViolation)
    } else {
        let sel = spec_select(cands, token, needed, cfg.dust_min, allow_dust);
        let total = sum_amounts(sel);
        if total < needed {
            Err(WalletError::InsufficientFunds)
        } else if !allow_dust && total != needed && total - needed < cfg.dust_min {
            Err(WalletError::InsufficientFundsForDust)
        } else if sel.len() > cfg.max_inputs {
            Err(WalletError::TooManyInputs)
        } else if recips.len() + (if total > needed {
            1int
        } else {
            0int
        }) > cfg.max_outputs {
            Err(WalletError::TooManyOutputs)
        } else {
            Ok(
                EssenceView {
                    inputs: sel,
                    outputs: recips.map_values(|r: Recipient| sketch_of(r)) + (if total > needed {
                        seq![
                            OutputSketch {
                                address: remainder_target(remainder_address, sender),
                                amount: (total - needed) as u64,
                                token: token,
                                nft: None,
                                is_remainder: true,
                            },
                        ]
                    } else {
                        Seq::<OutputSketch>::empty()
                    }),
                },
            )
        }
    }
}

fn sel_done_exec(total: u128, needed: u128, dust_min: u64, allow_dust: bool) -> (b: bool)
    ensures
        b == sel_done(total as int, needed as int, dust_min, allow_dust),
{
    total >= needed && (allow_dust || total == needed || total - needed >= dust_min as u128)
}

/// Select inputs of one token class covering `needed`, deterministically:
/// the first exact match if any, else first-fit in candidate order.
pub fn select_inputs(
    candidates: &Vec<OutputData>,
    token: u64,
    needed: u128,
    dust_min: u64,
    allow_dust: bool,
) -> (r: Vec<OutputData>)
    ensures
        r@ == spec_select(candidates@, token, needed as int, dust_min, allow_dust),
{
    // exact-match pass
    proof {
        assert(candidates@.skip(0) =~= candidates@);
    }
    let mut i: usize = 0;
    while i < candidates.len()
        invariant
            0 <= i <= candidates.len(),
            find_exact(candidates@, token, needed as int) == (match find_exact(
                candidates@.skip(i as int),
                token,
                needed as int,
            ) {
                Option::Some(j) => Some(j + i),
                Option::None => None,
            }),
        decreases candidates.len() - i,
    {
        let o = candidates[i];
        proof {
            assert(candidates@.skip(i as int).first() == candidates@[i as int]);
            assert(candidates@.skip(i as int).drop_first() =~= candidates@.skip(i + 1));
        }
        if o.token == token && o.amount as u128 == needed {
            let r = vec![o];
            proof {
                assert(find_exact(candidates@.skip(i as int), token, needed as int) == Some(0int));
                assert(find_exact(candidates@, token, needed as int) == Some(i as int));
                assert(r@ =~= seq![candidates@[i as int]]);
            }
            return r;
        }
        i = i + 1;
    }
    proof {
        assert(candidates@.skip(candidates@.len() as int) =~= Seq::<OutputData>::empty());
        assert(find_exact(candidates@, token, needed as int) is None);
        assert(candidates@.skip(0) =~= candidates@);
    }
    // first-fit pass
    let mut sel: Vec<OutputData> = Vec::new();
    let mut total: u128 = 0;
    let mut done = sel_done_exec(total, needed, dust_min, allow_dust);
    let mut k: usize = 0;
    while k < candidates.len() && !done
        invariant
            0 <= k <= candidates.len(),
            sel@.len() <= k,
            total == sum_amounts(sel@),
            done == sel_done(total as int, needed as int, dust_min, allow_dust),
            find_exact(candidates@, token, needed as int) is None,
            first_fit(candidates@, token, needed as int, dust_min, allow_dust, Seq::empty())
                == first_fit(
                candidates@.skip(k as int),
                token,
                needed as int,
                dust_min,
                allow_dust,
                sel@,
            ),
        decreases candidates.len() - k,
    {
        let o = candidates[k];
        proof {
            assert(candidates@.skip(k as int).first() == candidates@[k as int]);
            assert(candidates@.skip(k as int).drop_first() =~= candidates@.skip(k + 1));
            lemma_sum_push(sel@, candidates@[k as int]);
            lemma_sum_bounds(sel@);
            assert(sel@.len() as int <= 0xffff_ffff_ffff_ffffu64 as int);
            vstd::arithmetic::mul::lemma_mul_inequality(
                sel@.len() as int,
                0xffff_ffff_ffff_ffffu64 as int,
                0xffff_ffff_ffff_ffffu64 as int,
            );
        }
        if o.token == token {
            sel.push(o);
            total = total + o.amount as u128;
        }
        done = sel_done_exec(total, needed, dust_min, allow_dust);
        k = k + 1;
    }
    proof {
        if done {
            assert(first_fit(
                candidates@.skip(k as int),
                token,
                needed as int,
                dust_min,
                allow_dust,
                sel@,
            ) == sel@);
        } else {
            assert(candidates@.skip(candidates@.len() as int) =~= Seq::<OutputData>::empty());
        }
    }
    sel
}

/// Build an unsigned transaction essence for a transfer intent whose
/// recipients all lie in one token class: validate the intent, select
/// inputs, apply dust protection and the protocol limits, and construct the
/// recipient outputs plus a remainder output for any excess.  The result is
/// exactly `spec_prepare` of the arguments, so re-running the builder over
/// the same state yields the same essence, and every failure is reported
/// before any state or network interaction.
pub fn prepare_transfer(
    candidates: &Vec<OutputData>,
    intent: &TransferIntent,
    config: &SelectionConfig,
    sender: u64,
) -> (r: Result<TransactionEssence, WalletError>)
    requires
        sum_amounts(candidates@) <= 0xffff_ffff_ffff_ffffu64,
        forall|i: int|
            0 <= i < intent.recipients@.len() ==> (#[trigger] intent.recipients@[i]).token
                == intent.recipients@.first().token,
    ensures
        match r {
            Result::Ok(e) => Result::<EssenceView, WalletError>::Ok(e@) == spec_prepare(
                candidates@,
                intent.recipients@,
                intent.allow_dust,
                intent.remainder_address,
                *config,
                sender,
            ),
            Result::Err(err) => Result::<EssenceView, WalletError>::Err(err) == spec_prepare(
                candidates@,
                intent.recipients@,
                intent.allow_dust,
                intent.remainder_address,
                *config,
                sender,
            ),
        },
{
    let recips = &intent.recipients;
    if recips.len() == 0 {
        return Err(WalletError::EmptyIntent);
    }
    let mut has_zero = false;
    let mut has_dust = false;
    let mut needed: u128 = 0;
    let mut m: usize = 0;
    while m < recips.len()
        invariant
            0 <= m <= recips@.len(),
            has_zero == exists|q: int| 0 <= q < m && (#[trigger] recips@[q]).amount == 0,
            has_dust == exists|q: int| 0 <= q < m && (#[trigger] recips@[q]).amount
                < config.dust_min,
            needed == sum_recipients(recips@.take(m as int)),
        decreases recips@.len() - m,
    {
        let rc = recips[m];
        proof {
            assert(recips@.take(m + 1) =~= recips@.take(m as int).push(recips@[m as int]));
            lemma_recip_sum_push(recips@.take(m as int), recips@[m as int]);
            lemma_recip_sum_bounds(recips@.take(m as int));
            assert(m as int <= 0xffff_ffff_ffff_ffffu64 as int);
            vstd::arithmetic::mul::lemma_mul_inequality(
                m as int,
                0xffff_ffff_ffff_ffffu64 as int,
                0xffff_ffff_ffff_ffffu64 as int,
            );
        }
        if rc.amount == 0 {
            has_zero = true;
        }
        if rc.amount < config.dust_min {
            has_dust = true;
        }
        needed = needed + rc.amount as u128;
        m = m + 1;
    }
    proof {
        assert(recips@.take(recips@.len() as int) =~= recips@);
    }
    if has_zero {
        return Err(WalletError::ZeroAmount);
    }
    if !intent.allow_dust && has_dust {
        return Err(WalletError::DustViolation);
    }
    let token = recips[0].token;
    proof {
        assert(recips@[0] == recips@.first());
    }
    let sel = select_inputs(candidates, token, needed, config.dust_min, intent.allow_dust);
    let total = sum_vec(&sel);
    if total < needed {
        return Err(WalletError::InsufficientFunds);
    }
    if !intent.allow_dust && total != needed && total - needed < config.dust_min as u128 {
        return Err(WalletError::InsufficientFundsForDust);
    }
    if sel.len() > config.max_inputs {
        return Err(WalletError::TooManyInputs);
    }
    let has_remainder = total > needed;
    if has_remainder {
        if recips.len() >= config.max_outputs {
            return Err(WalletError::TooManyOutputs);
        }
    } else {
        if recips.len() > config.max_outputs {
            return Err(WalletError::TooManyOutputs);
        }
    }
    let mut outs: Vec<OutputSketch> = Vec::new();
    let mut q: usize = 0;
    while q < recips.len()
        invariant
            0 <= q <= recips@.len(),
            outs@.len() == q,
            forall|w: int| 0 <= w < q ==> outs@[w] == sketch_of(recips@[w]),
        decreases recips@.len() - q,
    {
        let rc = recips[q];
        outs.push(
            OutputSketch {
                address: rc.address,
                amount: rc.amount,
                token: rc.token,
                nft: None,
                is_remainder: false,
            },
        );
        q = q + 1;
    }
    proof {
        lemma_select_le_class(
            candidates@,
            token,
            needed as int,
            config.dust_min,
            intent.allow_dust,
        );
        lemma_class_total_le(candidates@, token);
        assert(total <= 0xffff_ffff_ffff_ffffu64 as u128);
    }
    if has_remainder {
        let rem = (total - needed) as u64;
        let rem_addr = match intent.remainder_address {
            Some(a) => a,
            None => sender,
        };
        outs.push(
            OutputSketch {
                address: rem_addr,
                amount: rem,
                token: token,
                nft: None,
                is_remainder: true,
            },
        );
        proof {
            assert(outs@ =~= recips@.map_values(|r: Recipient| sketch_of(r)) + seq![
                OutputSketch {
                    address: remainder_target(intent.remainder_address, sender),
                    amount: (total - needed) as u64,
                    token: token,
                    nft: None,
                    is_remainder: true,
                },
            ]);
        }
    } else {
        proof {
            assert(outs@ =~= recips@.map_values(|r: Recipient| sketch_of(r)) + Seq::<
                OutputSketch,
            >::empty());
        }
    }
    let e = TransactionEssence { inputs: sel, outputs: outs };
    proof {
        let v = match spec_prepare(
            candidates@,
            intent.recipients@,
            intent.allow_dust,
            intent.remainder_address,
            *config,
            sender,
        ) {
            Result::Ok(v) => v,
            Result::Err(_) => EssenceView { inputs: Seq::empty(), outputs: Seq::empty() },
        };
        assert(e@ =~= v);
    }
    Ok(e)
}

/// Sum of the amounts an essence's output list creates.
pub open spec fn sum_sketches(s: Seq<OutputSketch>) -> int
    decreases s.len(),
{
    if s.len() == 0 {
        0
    } else {
        sum_sketches(s.drop_last()) + s.last().amount
    }
}

proof fn lemma_sketch_sum_append(a: Seq<OutputSketch>, b: Seq<OutputSketch>)
    ensures
        sum_sketches(a + b) == sum_sketches(a) + sum_sketches(b),
    decreases b.len(),
{
    if b.len() == 0 {
        assert(a + b =~= a);
    } else {
        lemma_sketch_sum_append(a, b.drop_last());
        assert((a + b).drop_last() =~= a + b.drop_last());
        assert((a + b).last() == b.last());
    }
}

proof fn lemma_sketch_map_sum(rs: Seq<Recipient>)
    ensures
        sum_sketches(rs.map_values(|r: Recipient| sketch_of(r))) == sum_recipients(rs),
    decreases rs.len(),
{
    if rs.len() > 0 {
        lemma_sketch_map_sum(rs.drop_last());
        let m = rs.map_values(|r: Recipient| sketch_of(r));
        assert(m.drop_last() =~= rs.drop_last().map_values(|r: Recipient| sketch_of(r)));
        assert(m.last() == sketch_of(rs.last()));
    }
}

/// Value conservation: an essence the builder accepts spends exactly what it
/// creates — the selected inputs' total equals the recipients' total plus
/// the remainder, so no value appears or disappears.
pub proof fn lemma_essence_conserves_value(
    cands: Seq<OutputData>,
    recips: Seq<Recipient>,
    allow_dust: bool,
    remainder_address: Option<u64>,
    cfg: SelectionConfig,
    sender: u64,
    v: EssenceView,
)
    requires
        spec_prepare(cands, recips, allow_dust, remainder_address, cfg, sender) == Result::<
            EssenceView,
            WalletError,
        >::Ok(v),
        sum_amounts(cands) <= 0xffff_ffff_ffff_ffffu64,
    ensures
        sum_sketches(v.outputs) == sum_amounts(v.inputs),
{
    let token = recips.first().token;
    let needed = sum_recipients(recips);
    let sel = spec_select(cands, token, needed, cfg.dust_min, allow_dust);
    let total = sum_amounts(sel);
    lemma_sketch_map_sum(recips);
    lemma_select_le_class(cands, token, needed, cfg.dust_min, allow_dust);
    lemma_class_total_le(cands, token);
    lemma_recip_sum_bounds(recips);
    let mapped = recips.map_values(|r: Recipient| sketch_of(r));
    if total > needed {
        let rem = OutputSketch {
            address: remainder_target(remainder_address, sender),
            amount: (total - needed) as u64,
            token: token,
            nft: None,
            is_remainder: true,
        };
        assert(0 <= total - needed <= 0xffff_ffff_ffff_ffffu64);
        assert(rem.amount == total - needed);
        lemma_sketch_sum_append(mapped, seq![rem]);
        assert(sum_sketches(seq![rem]) == rem.amount) by {
            assert(seq![rem].drop_last() =~= Seq::<OutputSketch>::empty());
            assert(sum_sketches(Seq::<OutputSketch>::empty()) == 0);
        }
    } else {
        lemma_sketch_sum_append(mapped, Seq::<OutputSketch>::empty());
    }
}

/// Insufficient funds is reported exactly when the class cannot cover a
/// valid intent: for a non-empty intent with positive amounts that passes
/// dust validation, the builder fails with insufficient funds if and only if
/// the candidates' class total is below the recipients' total.
pub proof fn lemma_insufficient_funds_exact(
    cands: Seq<OutputData>,
    recips: Seq<Recipient>,
    allow_dust: bool,
    remainder_address: Option<u64>,
    cfg: SelectionConfig,
    sender: u64,
)
    requires
        recips.len() > 0,
        forall|i: int| 0 <= i < recips.len() ==> (#[trigger] recips[i]).amount > 0,
        allow_dust || forall|i: int|
            0 <= i < recips.len() ==> (#[trigger] recips[i]).amount >= cfg.dust_min,
    ensures
        (spec_prepare(cands, recips, allow_dust, remainder_address, cfg, sender) == Result::<
            EssenceView,
            WalletError,
        >::Err(WalletError::InsufficientFunds)) <==> class_total(cands, recips.first().token)
            < sum_recipients(recips),
{
    let token = recips.first().token;
    let needed = sum_recipients(recips);
    lemma_insufficient_iff(cands, token, needed, cfg.dust_min, allow_dust);
}

/// Token classes a recipient list touches, in order of first appearance.
pub open spec fn distinct_tokens(rs: Seq<Recipient>) -> Seq<u64>
    decreases rs.len(),
{
    if rs.len() == 0 {
        Seq::empty()
    } else {
        let rest = distinct_tokens(rs.drop_last());
        if rest.contains(rs.last().token) {
            rest
        } else {
            rest.push(rs.last().token)
        }
    }
}

/// The recipients of one token class, in intent order.
pub open spec fn class_recipients(rs: Seq<Recipient>, token: u64) -> Seq<Recipient> {
    rs.filter(|r: Recipient| r.token == token)
}

/// Result of building one essence per token class the intent touches, in
/// order of first appearance; the first class that fails aborts the whole
/// intent.
pub open spec fn spec_prepare_all(
    cands: Seq<OutputData>,
    rs: Seq<Recipient>,
    allow_dust: bool,
    remainder_address: Option<u64>,
    cfg: SelectionConfig,
    sender: u64,
    toks: Seq<u64>,
) -> Result<Seq<EssenceView>, WalletError>
    decreases toks.len(),
{
    if toks.len() == 0 {
        Ok(Seq::empty())
    } else {
        match spec_prepare_all(
            cands,
            rs,
            allow_dust,
            remainder_address,
            cfg,
            sender,
            toks.drop_last(),
        ) {
            Result::Ok(vs) => match spec_prepare(
                cands,
                class_recipients(rs, toks.last()),
                allow_dust,
                remainder_address,
                cfg,
                sender,
            ) {
                Result::Ok(v) => Ok(vs.push(v)),
                Result::Err(e) => Err(e),
            },
            Result::Err(e) => Err(e),
        }
    }
}

/// Once a class prefix fails, the whole per-class build fails the same way.
proof fn lemma_prepare_all_err_persists(
    cands: Seq<OutputData>,
    rs: Seq<Recipient>,
    allow_dust: bool,
    remainder_address: Option<u64>,
    cfg: SelectionConfig,
    sender: u64,
    toks: Seq<u64>,
    n: int,
)
    requires
        0 <= n <= toks.len(),
        spec_prepare_all(cands, rs, allow_dust, remainder_address, cfg, sender, toks.take(n))
            is Err,
    ensures
        spec_prepare_all(cands, rs, allow_dust, remainder_address, cfg, sender, toks)
            == spec_prepare_all(cands, rs, allow_dust, remainder_address, cfg, sender, toks.take(n)),
    decreases toks.len() - n,
{
    if n == toks.len() {
        assert(toks.take(n) =~= toks);
    } else {
        assert(toks.take(n + 1).drop_last() =~= toks.take(n));
        lemma_prepare_all_err_persists(
            cands,
            rs,
            allow_dust,
            remainder_address,
            cfg,
            sender,
            toks,
            n + 1,
        );
    }
}

/// Build one essence per token class of an arbitrary transfer intent:
/// recipients are grouped by class in order of first appearance and each
/// class becomes an independently signable transaction, so one intent may
/// split into multiple sequential transfers.  The first failing class aborts
/// the intent without any state change.
pub fn prepare_transfers(
    candidates: &Vec<OutputData>,
    intent: &TransferIntent,
    config: &SelectionConfig,
    sender: u64,
) -> (r: Result<Vec<TransactionEssence>, WalletError>)
    requires
        sum_amounts(candidates@) <= 0xffff_ffff_ffff_ffffu64,
    ensures
        match r {
            Result::Ok(es) => Result::<Seq<EssenceView>, WalletError>::Ok(
                es@.map_values(|e: TransactionEssence| e@),
            ) == spec_prepare_all(
                candidates@,
                intent.recipients@,
                intent.allow_dust,
                intent.remainder_address,
                *config,
                sender,
                distinct_tokens(intent.recipients@),
            ),
            Result::Err(err) => Result::<Seq<EssenceView>, WalletError>::Err(err)
                == spec_prepare_all(
                candidates@,
                intent.recipients@,
                intent.allow_dust,
                intent.remainder_address,
                *config,
                sender,
                distinct_tokens(intent.recipients@),
            ),
        },
{
    let recips = &intent.recipients;
    // the classes, in order of first appearance
    let mut toks: Vec<u64> = Vec::new();
    let mut m: usize = 0;
    while m < recips.len()
        invariant
            0 <= m <= recips@.len(),
            toks@ == distinct_tokens(recips@.take(m as int)),
        decreases recips@.len() - m,
    {
        let t = recips[m].token;
        let mut seen = false;
        let mut w: usize = 0;
        while w < toks.len()
            invariant
                0 <= w <= toks@.len(),
                seen == exists|v: int| 0 <= v < w && toks@[v] == t,
            decreases toks@.len() - w,
        {
            if toks[w] == t {
                seen = true;
            }
            w = w + 1;
        }
        proof {
            assert(recips@.take(m + 1).drop_last() =~= recips@.take(m as int));
            assert(recips@.take(m + 1).last() == recips@[m as int]);
            assert(seen == toks@.contains(t));
        }
        if !seen {
            toks.push(t);
        }
        m = m + 1;
    }
    proof {
        assert(recips@.take(recips@.len() as int) =~= recips@);
    }
    let ghost all_toks = toks@;
    // one essence per class
    let mut results: Vec<TransactionEssence> = Vec::new();
    proof {
        assert(all_toks.take(0) =~= Seq::<u64>::empty());
        assert(results@.map_values(|e: TransactionEssence| e@) =~= Seq::<EssenceView>::empty());
    }
    let mut k: usize = 0;
    while k < toks.len()
        invariant
            0 <= k <= toks@.len(),
            toks@ == all_toks,
            recips@ == intent.recipients@,
            all_toks == distinct_tokens(intent.recipients@),
            sum_amounts(candidates@) <= 0xffff_ffff_ffff_ffffu64,
            spec_prepare_all(
                candidates@,
                recips@,
                intent.allow_dust,
                intent.remainder_address,
                *config,
                sender,
                all_toks.take(k as int),
            ) == Result::<Seq<EssenceView>, WalletError>::Ok(
                results@.map_values(|e: TransactionEssence| e@),
            ),
        decreases toks@.len() - k,
    {
        let t = toks[k];
        // the recipients of this class
        let mut class: Vec<Recipient> = Vec::new();
        let mut w: usize = 0;
        while w < recips.len()
            invariant
                0 <= w <= recips@.len(),
                class@ == recips@.take(w as int).filter(|r: Recipient| r.token == t),
            decreases recips@.len() - w,
        {
            let rc = recips[w];
            proof {
                let pred = |r: Recipient| r.token == t;
                assert(recips@.take(w + 1) =~= recips@.take(w as int) + seq![
                    recips@[w as int],
                ]);
                Seq::filter_distributes_over_add(
                    recips@.take(w as int),
                    seq![recips@[w as int]],
                    pred,
                );
                reveal_with_fuel(Seq::filter, 2);
                assert(seq![recips@[w as int]].drop_last() =~= Seq::<Recipient>::empty());
                if pred(recips@[w as int]) {
                    assert(seq![recips@[w as int]].filter(pred) =~= seq![recips@[w as int]]);
                    assert(recips@.take(w as int).filter(pred) + seq![recips@[w as int]]
                        =~= recips@.take(w as int).filter(pred).push(recips@[w as int]));
                } else {
                    assert(seq![recips@[w as int]].filter(pred) =~= Seq::<Recipient>::empty());
                    assert(recips@.take(w as int).filter(pred) + Seq::<Recipient>::empty()
                        =~= recips@.take(w as int).filter(pred));
                }
            }
            if rc.token == t {
                class.push(rc);
            }
            w = w + 1;
        }
        proof {
            assert(recips@.take(recips@.len() as int) =~= recips@);
            assert(class@ == class_recipients(recips@, t));
            broadcast use vstd::seq_lib::group_filter_ensures;

            assert(forall|i: int|
                0 <= i < class@.len() ==> (#[trigger] class@[i]).token == t);
        }
        let class_intent = TransferIntent {
            recipients: class,
            allow_dust: intent.allow_dust,
            remainder_address: intent.remainder_address,
        };
        let one = prepare_transfer(candidates, &class_intent, config, sender);
        proof {
            assert(all_toks.take(k + 1).drop_last() =~= all_toks.take(k as int));
            assert(all_toks.take(k + 1).last() == all_toks[k as int]);
        }
        let ghost prev = results@;
        match one {
            Result::Ok(e) => {
                let ghost ev = e@;
                results.push(e);
                proof {
                    assert(results@ =~= prev.push(results@[prev.len() as int]));
                    assert(results@.map_values(|e: TransactionEssence| e@) =~= prev.map_values(
                        |e: TransactionEssence| e@,
                    ).push(ev));
                }
            },
            Result::Err(err) => {
                proof {
                    assert(spec_prepare_all(
                        candidates@,
                        recips@,
                        intent.allow_dust,
                        intent.remainder_address,
                        *config,
                        sender,
                        all_toks.take(k + 1),
                    ) == Result::<Seq<EssenceView>, WalletError>::Err(err));
                    lemma_prepare_all_err_persists(
                        candidates@,
                        recips@,
                        intent.allow_dust,
                        intent.remainder_address,
                        *config,
                        sender,
                        all_toks,
                        k + 1,
                    );
                    assert(spec_prepare_all(
                        candidates@,
                        intent.recipients@,
                        intent.allow_dust,
                        intent.remainder_address,
                        *config,
                        sender,
                        distinct_tokens(intent.recipients@),
                    ) == Result::<Seq<EssenceView>, WalletError>::Err(err));
                }
                return Err(err);
            },
        }
        k = k + 1;
    }
    proof {
        assert(all_toks.take(all_toks.len() as int) =~= all_toks);
    }
    Ok(results)
}

/// Merge every spendable output of one token class into a single output
/// held by the wallet's own address.  The inputs are exactly the class's
/// spendable outputs, in order; the one created output carries their total,
/// so consolidation conserves value by construction.
pub fn prepare_consolidation(
    candidates: &Vec<OutputData>,
    token: u64,
    to: u64,
    config: &SelectionConfig,
) -> (r: Result<TransactionEssence, WalletError>)
    requires
        sum_amounts(candidates@) <= 0xffff_ffff_ffff_ffffu64,
    ensures
        match r {
            Result::Ok(e) => {
                &&& e@.inputs == candidates@.filter(|o: OutputData| o.token == token)
                &&& e@.inputs.len() > 0
                &&& e@.inputs.len() <= config.max_inputs
                &&& e@.outputs == seq![
                    OutputSketch {
                        address: to,
                        amount: class_total(candidates@, token) as u64,
                        token: token,
                        nft: None,
                        is_remainder: false,
                    },
                ]
            },
            Result::Err(err) => {
                ||| (err == WalletError::InsufficientFunds && candidates@.filter(
                    |o: OutputData| o.token == token,
                ).len() == 0)
                ||| (err == WalletError::TooManyInputs && candidates@.filter(
                    |o: OutputData| o.token == token,
                ).len() > config.max_inputs)
            },
        },
{
    let mut inputs: Vec<OutputData> = Vec::new();
    let mut i: usize = 0;
    while i < candidates.len()
        invariant
            0 <= i <= candidates@.len(),
            inputs@ == candidates@.take(i as int).filter(|o: OutputData| o.token == token),
        decreases candidates@.len() - i,
    {
        let o = candidates[i];
        proof {
            let pred = |o: OutputData| o.token == token;
            let cur = candidates@[i as int];
            assert(candidates@.take(i + 1) =~= candidates@.take(i as int) + seq![cur]);
            Seq::filter_distributes_over_add(candidates@.take(i as int), seq![cur], pred);
            reveal_with_fuel(Seq::filter, 2);
            assert(seq![cur].drop_last() =~= Seq::<OutputData>::empty());
            if pred(cur) {
                assert(seq![cur].filter(pred) =~= seq![cur]);
                assert(candidates@.take(i as int).filter(pred) + seq![cur] =~= candidates@.take(
                    i as int,
                ).filter(pred).push(cur));
            } else {
                assert(seq![cur].filter(pred) =~= Seq::<OutputData>::empty());
                assert(candidates@.take(i as int).filter(pred) + Seq::<OutputData>::empty()
                    =~= candidates@.take(i as int).filter(pred));
            }
        }
        if o.token == token {
            inputs.push(o);
        }
        i = i + 1;
    }
    proof {
        assert(candidates@.take(candidates@.len() as int) =~= candidates@);
    }
    if inputs.len() == 0 {
        return Err(WalletError::InsufficientFunds);
    }
    if inputs.len() > config.max_inputs {
        return Err(WalletError::TooManyInputs);
    }
    let total = sum_vec(&inputs);
    proof {
        lemma_class_total_le(candidates@, token);
    }
    let outputs = vec![
        OutputSketch {
            address: to,
            amount: total as u64,
            token: token,
            nft: None,
            is_remainder: false,
        },
    ];
    proof {
        assert(outputs@ =~= seq![
            OutputSketch {
                address: to,
                amount: class_total(candidates@, token) as u64,
                token: token,
                nft: None,
                is_remainder: false,
            },
        ]);
    }
    Ok(TransactionEssence { inputs, outputs })
}

/// Index of the first candidate carrying the NFT.
pub open spec fn find_nft(cands: Seq<OutputData>, nft_id: u64) -> Option<int>
    decreases cands.len(),
{
    if cands.len() == 0 {
        None
    } else if cands.first().nft == Some(nft_id) {
        Some(0)
    } else {
        match find_nft(cands.drop_first(), nft_id) {
            Option::Some(i) => Some(i + 1),
            Option::None => None,
        }
    }
}

/// Build the essence of an NFT transfer: the first spendable output carrying
/// the NFT becomes the single input, and a single output hands the NFT, with
/// the amount stored alongside it, to the recipient.  No spendable output
/// carrying the NFT is a distinct resource failure.
pub fn prepare_nft_transfer(candidates: &Vec<OutputData>, nft_id: u64, to: u64) -> (r: Result<
    TransactionEssence,
    WalletError,
>)
    ensures
        match r {
            Result::Ok(e) => {
                &&& find_nft(candidates@, nft_id) matches Some(i) && e@.inputs == seq![
                    candidates@[i],
                ] && e@.outputs == seq![
                    OutputSketch {
                        address: to,
                        amount: candidates@[i].amount,
                        token: candidates@[i].token,
                        nft: Some(nft_id),
                        is_remainder: false,
                    },
                ]
            },
            Result::Err(err) => err == WalletError::NftNotFound && find_nft(
                candidates@,
                nft_id,
            ) is None,
        },
{
    proof {
        assert(candidates@.skip(0) =~= candidates@);
    }
    let mut i: usize = 0;
    while i < candidates.len()
        invariant
            0 <= i <= candidates@.len(),
            find_nft(candidates@, nft_id) == (match find_nft(candidates@.skip(i as int), nft_id) {
                Option::Some(j) => Some(j + i),
                Option::None => None,
            }),
        decreases candidates@.len() - i,
    {
        let o = candidates[i];
        proof {
            assert(candidates@.skip(i as int).first() == candidates@[i as int]);
            assert(candidates@.skip(i as int).drop_first() =~= candidates@.skip(i + 1));
        }
        let hit = match o.nft {
            Some(n) => n == nft_id,
            None => false,
        };
        if hit {
            let inputs = vec![o];
            let outputs = vec![
                OutputSketch {
                    address: to,
                    amount: o.amount,
                    token: o.token,
                    nft: Some(nft_id),
                    is_remainder: false,
                },
            ];
            proof {
                assert(find_nft(candidates@.skip(i as int), nft_id) == Some(0int));
                assert(inputs@ =~= seq![candidates@[i as int]]);
                assert(outputs@ =~= seq![
                    OutputSketch {
                        address: to,
                        amount: candidates@[i as int].amount,
                        token: candidates@[i as int].token,
                        nft: Some(nft_id),
                        is_remainder: false,
                    },
                ]);
            }
            return Ok(TransactionEssence { inputs, outputs });
        }
        i = i + 1;
    }
    proof {
        assert(candidates@.skip(candidates@.len() as int) =~= Seq::<OutputData>::empty());
    }
    Err(WalletError::NftNotFound)
}

/// Input selection is deterministic: two results obtained from the transfer
/// builder over the same candidate set, intent and configuration are equal.
pub proof fn lemma_selection_deterministic(
    cands: Seq<OutputData>,
    recips: Seq<Recipient>,
    allow_dust: bool,
    remainder_address: Option<u64>,
    cfg: SelectionConfig,
    sender: u64,
    r1: Result<EssenceView, WalletError>,
    r2: Result<EssenceView, WalletError>,
)
    requires
        r1 == spec_prepare(cands, recips, allow_dust, remainder_address, cfg, sender),
        r2 == spec_prepare(cands, recips, allow_dust, remainder_address, cfg, sender),
    ensures
        r1 == r2,
{
}

} // verus!
