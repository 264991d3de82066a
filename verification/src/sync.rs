//! Synchronization engine: planning the address range to query, turning the
//! node's observed output sets into a sync diff against the account state,
//! extending the address list when gap-limit probing finds funded addresses,
//! the bounded-retry decision for failed address queries, and the partial
//! failure report of one sync round.  The node queries themselves run
//! outside the crate; their results enter as plain values.

use vstd::prelude::*;

use crate::account::AccountState;
use crate::account::SpentEntry;
use crate::account::sync_diff_wf;
use crate::types::AddressInfo;
use crate::types::OutputData;
use crate::types::OutputId;
use crate::types::OutputStatus;
use crate::types::find_output;
use crate::types::has_output_id;
use crate::types::ids_unique;

verus! {

/// One unspent output as the node reports it.
#[derive(Clone, Copy, PartialEq, Eq, Debug)]
pub struct NodeOutput {
    pub id: OutputId,
    pub address: u64,
    pub amount: u64,
    pub token: u64,
    pub nft: Option<u64>,
}

/// The node reports each output once.
pub open spec fn node_ids_unique(obs: Seq<NodeOutput>) -> bool {
    forall|i: int, j: int| 0 <= i < j < obs.len() ==> obs[i].id != obs[j].id
}

/// The account-side record of a newly observed output: unspent on arrival.
pub open spec fn to_unspent_output(n: NodeOutput) -> OutputData {
    OutputData {
        id: n.id,
        address: n.address,
        amount: n.amount,
        token: n.token,
        nft: n.nft,
        status: OutputStatus::Unspent,
    }
}

/// The newly seen side of a sync diff: observed unspent outputs whose
/// identifier the account does not know yet, in observation order.
pub open spec fn spec_new_outputs(known: Seq<OutputData>, obs: Seq<NodeOutput>) -> Seq<OutputData>
    decreases obs.len(),
{
    if obs.len() == 0 {
        Seq::empty()
    } else {
        let rest = spec_new_outputs(known, obs.drop_last());
        if has_output_id(known, obs.last().id) {
            rest
        } else {
            rest.push(to_unspent_output(obs.last()))
        }
    }
}

/// The spent side of a sync diff: reported-spent entries restricted to
/// outputs the account actually holds.
pub open spec fn spec_spent_entries(known: Seq<OutputData>, obs: Seq<SpentEntry>) -> Seq<
    SpentEntry,
> {
    obs.filter(|e: SpentEntry| has_output_id(known, e.out))
}

/// The newly seen side of a diff keeps identifiers distinct, arrives
/// unspent, and draws only on what the node reported.
proof fn lemma_new_outputs_props(known: Seq<OutputData>, obs: Seq<NodeOutput>)
    requires
        node_ids_unique(obs),
    ensures
        ids_unique(spec_new_outputs(known, obs)),
        forall|i: int|
            0 <= i < spec_new_outputs(known, obs).len() ==> (#[trigger] spec_new_outputs(
                known,
                obs,
            )[i]).status is Unspent,
        forall|id: OutputId|
            has_output_id(spec_new_outputs(known, obs), id) ==> exists|w: int|
                0 <= w < obs.len() && obs[w].id == id,
    decreases obs.len(),
{
    if obs.len() > 0 {
        assert(node_ids_unique(obs.drop_last()));
        lemma_new_outputs_props(known, obs.drop_last());
        let rest = spec_new_outputs(known, obs.drop_last());
        let full = spec_new_outputs(known, obs);
        assert forall|id: OutputId|
            has_output_id(rest, id) implies exists|w: int| 0 <= w < obs.len() && obs[w].id
            == id by {
            let w = choose|w: int| 0 <= w < obs.drop_last().len() && obs.drop_last()[w].id == id;
            assert(obs[w].id == id);
        }
        if !has_output_id(known, obs.last().id) {
            assert(obs[obs.len() - 1].id == obs.last().id);
            assert(!has_output_id(rest, obs.last().id)) by {
                if has_output_id(rest, obs.last().id) {
                    let w = choose|w: int|
                        0 <= w < obs.drop_last().len() && obs.drop_last()[w].id == obs.last().id;
                    assert(obs[w].id == obs[obs.len() - 1].id);
                }
            }
            assert forall|a: int, b: int| 0 <= a < b < full.len() implies full[a].id
                != full[b].id by {
                if b < rest.len() {
                } else {
                    assert(full[b] == to_unspent_output(obs.last()));
                    if full[a].id == obs.last().id {
                        assert(has_output_id(rest, obs.last().id));
                    }
                }
            }
            assert forall|id: OutputId| has_output_id(full, id) implies exists|w: int|
                0 <= w < obs.len() && obs[w].id == id by {
                let v = choose|v: int| 0 <= v < full.len() && full[v].id == id;
                if v < rest.len() {
                    assert(has_output_id(rest, id));
                } else {
                    assert(obs[obs.len() - 1].id == id);
                }
            }
        }
    }
}

/// Compute the sync diff for one account against what the node reported:
/// newly seen outputs enter unspent, reported-spent entries are restricted
/// to known outputs, and the result is a well-formed diff ready for
/// `apply_sync_diff`.
pub fn compute_diff(
    account: &AccountState,
    observed_unspent: &Vec<NodeOutput>,
    observed_spent: &Vec<SpentEntry>,
) -> (r: (Vec<OutputData>, Vec<SpentEntry>))
    requires
        node_ids_unique(observed_unspent@),
    ensures
        r.0@ == spec_new_outputs(account.outputs@, observed_unspent@),
        r.1@ == spec_spent_entries(account.outputs@, observed_spent@),
        sync_diff_wf(r.0@, r.1@),
{
    let known = &account.outputs;
    let mut new_outputs: Vec<OutputData> = Vec::new();
    let mut i: usize = 0;
    while i < observed_unspent.len()
        invariant
            0 <= i <= observed_unspent@.len(),
            known@ == account.outputs@,
            new_outputs@ == spec_new_outputs(account.outputs@, observed_unspent@.take(i as int)),
        decreases observed_unspent@.len() - i,
    {
        let n = observed_unspent[i];
        proof {
            assert(observed_unspent@.take(i + 1).drop_last() =~= observed_unspent@.take(i as int));
            assert(observed_unspent@.take(i + 1).last() == observed_unspent@[i as int]);
        }
        match find_output(known, n.id) {
            Some(_) => {},
            None => {
                new_outputs.push(
                    OutputData {
                        id: n.id,
                        address: n.address,
                        amount: n.amount,
                        token: n.token,
                        nft: n.nft,
                        status: OutputStatus::Unspent,
                    },
                );
            },
        }
        i = i + 1;
    }
    proof {
        assert(observed_unspent@.take(observed_unspent@.len() as int) =~= observed_unspent@);
    }
    let mut spent: Vec<SpentEntry> = Vec::new();
    let mut k: usize = 0;
    while k < observed_spent.len()
        invariant
            0 <= k <= observed_spent@.len(),
            known@ == account.outputs@,
            spent@ == observed_spent@.take(k as int).filter(
                |e: SpentEntry| has_output_id(account.outputs@, e.out),
            ),
        decreases observed_spent@.len() - k,
    {
        let e = observed_spent[k];
        proof {
            let pred = |e: SpentEntry| has_output_id(account.outputs@, e.out);
            assert(observed_spent@.take(k + 1) =~= observed_spent@.take(k as int) + seq![
                observed_spent@[k as int],
            ]);
            Seq::filter_distributes_over_add(
                observed_spent@.take(k as int),
                seq![observed_spent@[k as int]],
                pred,
            );
            reveal_with_fuel(Seq::filter, 2);
            assert(seq![observed_spent@[k as int]].drop_last() =~= Seq::<SpentEntry>::empty());
            if pred(observed_spent@[k as int]) {
                assert(seq![observed_spent@[k as int]].filter(pred) =~= seq![
                    observed_spent@[k as int],
                ]);
                assert(observed_spent@.take(k as int).filter(pred) + seq![
                    observed_spent@[k as int],
                ] =~= observed_spent@.take(k as int).filter(pred).push(
                    observed_spent@[k as int],
                ));
            } else {
                assert(seq![observed_spent@[k as int]].filter(pred) =~= Seq::<
                    SpentEntry,
                >::empty());
                assert(observed_spent@.take(k as int).filter(pred) + Seq::<SpentEntry>::empty()
                    =~= observed_spent@.take(k as int).filter(pred));
            }
        }
        match find_output(known, e.out) {
            Some(_) => {
                spent.push(e);
            },
            None => {},
        }
        k = k + 1;
    }
    proof {
        assert(observed_spent@.take(observed_spent@.len() as int) =~= observed_spent@);
        lemma_new_outputs_props(account.outputs@, observed_unspent@);
    }
    (new_outputs, spent)
}

/// Largest known derivation index, or -1 when no address exists yet.
pub open spec fn spec_max_index(s: Seq<AddressInfo>) -> int
    decreases s.len(),
{
    if s.len() == 0 {
        -1
    } else {
        let m = spec_max_index(s.drop_last());
        if s.last().key_index > m {
            s.last().key_index as int
        } else {
            m
        }
    }
}

proof fn lemma_max_prefix(s: Seq<AddressInfo>, i: int)
    requires
        0 <= i <= s.len(),
    ensures
        spec_max_index(s.take(i)) <= spec_max_index(s),
        spec_max_index(s.take(i)) >= -1,
    decreases s.len() - i,
{
    if i == s.len() {
        assert(s.take(i) =~= s);
        assert(spec_max_index(s.take(i)) >= -1) by {
            lemma_max_nonneg(s);
        }
    } else {
        lemma_max_prefix(s, i + 1);
        assert(s.take(i + 1).drop_last() =~= s.take(i));
        assert(s.take(i + 1).last() == s[i]);
    }
}

proof fn lemma_max_nonneg(s: Seq<AddressInfo>)
    ensures
        spec_max_index(s) >= -1,
    decreases s.len(),
{
    if s.len() > 0 {
        lemma_max_nonneg(s.drop_last());
    }
}

/// The derivation indices one sync round queries: every known address, then
/// `gap_limit` probe indices past the largest known one, so funded addresses
/// beyond the last used index are discovered.
pub fn plan_query_range(addresses: &Vec<AddressInfo>, gap_limit: u32) -> (r: Vec<u32>)
    requires
        spec_max_index(addresses@) + 1 + gap_limit <= u32::MAX,
    ensures
        r@.len() == addresses@.len() + gap_limit,
        forall|i: int| 0 <= i < addresses@.len() ==> r@[i] == addresses@[i].key_index,
        forall|m: int|
            addresses@.len() <= m < r@.len() ==> r@[m] == spec_max_index(addresses@) + 1 + (m
                - addresses@.len()),
{
    let mut r: Vec<u32> = Vec::new();
    let mut next: u32 = 0;
    let mut i: usize = 0;
    proof {
        assert(addresses@.take(0) =~= Seq::<AddressInfo>::empty());
    }
    while i < addresses.len()
        invariant
            0 <= i <= addresses@.len(),
            r@.len() == i,
            forall|m: int| 0 <= m < i ==> r@[m] == addresses@[m].key_index,
            next == spec_max_index(addresses@.take(i as int)) + 1,
            spec_max_index(addresses@) + 1 + gap_limit <= u32::MAX,
        decreases addresses@.len() - i,
    {
        let a = addresses[i];
        proof {
            assert(addresses@.take(i + 1).drop_last() =~= addresses@.take(i as int));
            assert(addresses@.take(i + 1).last() == addresses@[i as int]);
            lemma_max_prefix(addresses@, i + 1);
        }
        r.push(a.key_index);
        if a.key_index >= next {
            next = a.key_index + 1;
        }
        i = i + 1;
    }
    proof {
        assert(addresses@.take(addresses@.len() as int) =~= addresses@);
    }
    let mut g: u32 = 0;
    while g < gap_limit
        invariant
            0 <= g <= gap_limit,
            r@.len() == addresses@.len() + g,
            forall|m: int| 0 <= m < addresses@.len() ==> r@[m] == addresses@[m].key_index,
            forall|m: int|
                addresses@.len() <= m < r@.len() ==> r@[m] == spec_max_index(addresses@) + 1 + (m
                    - addresses@.len()),
            next == spec_max_index(addresses@) + 1,
            spec_max_index(addresses@) + 1 + gap_limit <= u32::MAX,
        decreases gap_limit - g,
    {
        r.push(next + g);
        g = g + 1;
    }
    r
}

/// An address list holds the (index, internal) pair.
pub open spec fn has_address(s: Seq<AddressInfo>, key_index: u32, internal: bool) -> bool {
    exists|i: int| 0 <= i < s.len() && s[i].key_index == key_index && s[i].internal == internal
}

/// Address list after discovery: each found address joins permanently
/// unless its derivation slot is already present.
pub open spec fn merge_addresses(s: Seq<AddressInfo>, found: Seq<AddressInfo>) -> Seq<AddressInfo>
    decreases found.len(),
{
    if found.len() == 0 {
        s
    } else {
        let rest = merge_addresses(s, found.drop_last());
        if has_address(rest, found.last().key_index, found.last().internal) {
            rest
        } else {
            rest.push(found.last())
        }
    }
}

fn has_address_exec(s: &Vec<AddressInfo>, key_index: u32, internal: bool) -> (b: bool)
    ensures
        b == has_address(s@, key_index, internal),
{
    let mut i: usize = 0;
    while i < s.len()
        invariant
            0 <= i <= s@.len(),
            forall|m: int|
                0 <= m < i ==> !(s@[m].key_index == key_index && s@[m].internal == internal),
        decreases s@.len() - i,
    {
        if s[i].key_index == key_index && s[i].internal == internal {
            return true;
        }
        i = i + 1;
    }
    false
}

impl AccountState {
    /// Permanently extend the address list with the addresses a sync round
    /// discovered through gap-limit probing; a derivation slot already
    /// present is left alone.  No output or transaction state changes.
    pub fn extend_addresses(&mut self, found: &Vec<AddressInfo>)
        requires
            old(self).wf(),
        ensures
            final(self).wf(),
            final(self).addresses@ == merge_addresses(old(self).addresses@, found@),
            final(self).outputs@ == old(self).outputs@,
            final(self).transactions@ == old(self).transactions@,
            final(self).cached_base_balance == old(self).cached_base_balance,
            final(self).next_local_tx == old(self).next_local_tx,
            final(self).index == old(self).index,
    {
        let mut j: usize = 0;
        while j < found.len()
            invariant
                0 <= j <= found@.len(),
                old(self).wf(),
                self.addresses@ == merge_addresses(old(self).addresses@, found@.take(j as int)),
                self.outputs@ == old(self).outputs@,
                self.transactions@ == old(self).transactions@,
                self.cached_base_balance == old(self).cached_base_balance,
                self.next_local_tx == old(self).next_local_tx,
                self.index == old(self).index,
            decreases found@.len() - j,
        {
            let a = found[j];
            proof {
                assert(found@.take(j + 1).drop_last() =~= found@.take(j as int));
                assert(found@.take(j + 1).last() == found@[j as int]);
            }
            if !has_address_exec(&self.addresses, a.key_index, a.internal) {
                self.addresses.push(a);
            }
            j = j + 1;
        }
        proof {
            assert(found@.take(found@.len() as int) =~= found@);
        }
    }
}

/// Retry policy for a failed address query during sync.
#[derive(Clone, Copy, PartialEq, Eq, Structural, Debug)]
pub struct RetryPolicy {
    /// How many attempts one address gets before sync reports it failed.
    pub max_attempts: u32,
    /// Base backoff between attempts, in milliseconds.
    pub backoff_ms: u64,
}

/// Linear backoff before the next attempt, saturating at the largest delay.
pub open spec fn spec_backoff(policy: RetryPolicy, attempts: u32) -> u64 {
    if (attempts + 1) * policy.backoff_ms > u64::MAX {
        u64::MAX
    } else {
        ((attempts + 1) * policy.backoff_ms) as u64
    }
}

/// Decide whether a failed address query is retried: yes, with the next
/// backoff, while attempts remain; once they are exhausted the address is
/// reported failed and sync goes on with the other addresses.
pub fn retry_decision(attempts: u32, policy: &RetryPolicy) -> (r: Option<u64>)
    ensures
        r is Some <==> attempts < policy.max_attempts,
        r is Some ==> r->0 == spec_backoff(*policy, attempts),
{
    if attempts < policy.max_attempts {
        proof {
            vstd::arithmetic::mul::lemma_mul_inequality(
                attempts as int + 1,
                0x1_0000_0000int,
                policy.backoff_ms as int,
            );
        }
        let f = (attempts as u128 + 1) * (policy.backoff_ms as u128);
        if f > u64::MAX as u128 {
            Some(u64::MAX)
        } else {
            Some(f as u64)
        }
    } else {
        None
    }
}

/// Per-address outcome of one sync round.
#[derive(Clone, Copy, PartialEq, Eq, Structural, Debug)]
pub struct AddressSyncResult {
    pub address: u64,
    pub ok: bool,
}

/// Report of one sync round: which addresses synced and which failed after
/// their retries were exhausted.
#[derive(Clone, Debug)]
pub struct SyncReport {
    pub synced: Vec<u64>,
    pub failed: Vec<u64>,
}

/// Fold per-address outcomes into the round's report: a failed address is
/// reported, never silently dropped, and does not abort the others.
pub fn summarize_sync(results: &Vec<AddressSyncResult>) -> (r: SyncReport)
    ensures
        r.synced@ == results@.filter(|x: AddressSyncResult| x.ok).map_values(
            |x: AddressSyncResult| x.address,
        ),
        r.failed@ == results@.filter(|x: AddressSyncResult| !x.ok).map_values(
            |x: AddressSyncResult| x.address,
        ),
{
    let mut synced: Vec<u64> = Vec::new();
    let mut failed: Vec<u64> = Vec::new();
    let mut i: usize = 0;
    while i < results.len()
        invariant
            0 <= i <= results@.len(),
            synced@ == results@.take(i as int).filter(|x: AddressSyncResult| x.ok).map_values(
                |x: AddressSyncResult| x.address,
            ),
            failed@ == results@.take(i as int).filter(|x: AddressSyncResult| !x.ok).map_values(
                |x: AddressSyncResult| x.address,
            ),
        decreases results@.len() - i,
    {
        let x = results[i];
        proof {
            let pok = |x: AddressSyncResult| x.ok;
            let pbad = |x: AddressSyncResult| !x.ok;
            let f = |x: AddressSyncResult| x.address;
            let cur = results@[i as int];
            assert(results@.take(i + 1) =~= results@.take(i as int) + seq![cur]);
            Seq::filter_distributes_over_add(results@.take(i as int), seq![cur], pok);
            Seq::filter_distributes_over_add(results@.take(i as int), seq![cur], pbad);
            reveal_with_fuel(Seq::filter, 2);
            assert(seq![cur].drop_last() =~= Seq::<AddressSyncResult>::empty());
            if cur.ok {
                assert(seq![cur].filter(pok) =~= seq![cur]);
                assert(seq![cur].filter(pbad) =~= Seq::<AddressSyncResult>::empty());
                assert(results@.take(i as int).filter(pok) + seq![cur] =~= results@.take(
                    i as int,
                ).filter(pok).push(cur));
                assert((results@.take(i as int).filter(pok).push(cur)).map_values(f)
                    =~= results@.take(i as int).filter(pok).map_values(f).push(cur.address));
                assert(results@.take(i as int).filter(pbad) + Seq::<AddressSyncResult>::empty()
                    =~= results@.take(i as int).filter(pbad));
            } else {
                assert(seq![cur].filter(pbad) =~= seq![cur]);
                assert(seq![cur].filter(pok) =~= Seq::<AddressSyncResult>::empty());
                assert(results@.take(i as int).filter(pbad) + seq![cur] =~= results@.take(
                    i as int,
                ).filter(pbad).push(cur));
                assert((results@.take(i as int).filter(pbad).push(cur)).map_values(f)
                    =~= results@.take(i as int).filter(pbad).map_values(f).push(cur.address));
                assert(results@.take(i as int).filter(pok) + Seq::<AddressSyncResult>::empty()
                    =~= results@.take(i as int).filter(pok));
            }
        }
        if x.ok {
            synced.push(x.address);
        } else {
            failed.push(x.address);
        }
        i = i + 1;
    }
    proof {
        assert(results@.take(results@.len() as int) =~= results@);
    }
    SyncReport { synced, failed }
}

} // verus!
