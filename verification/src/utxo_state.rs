use vstd::prelude::*;

use crate::block::{Block, BlockView};
use crate::chain::Chain;
use crate::key::Address;
use crate::transaction::{txs_view, Transaction, TxView};
use crate::utxo::{
    clone_utxos, spec_find_amount, spec_sum_utxos, utxos_view, TransactionIn, TxOutView, UnspentTransaction, UtxoView,
};

verus! {

/// The unspent outputs that the outputs of a transaction become, numbered
/// from `first_id` on.
pub open spec fn spec_outs_to_utxos(outs: Seq<TxOutView>, first_id: int) -> Seq<UtxoView> {
    Seq::new(
        outs.len(),
        |i: int| UtxoView { id: (first_id + i) as u64, address: outs[i].address, amount: outs[i].amount },
    )
}

/// Whether some input refers to the id.
pub open spec fn spends(ins: Seq<TransactionIn>, id: u64) -> bool {
    exists|i: int| 0 <= i < ins.len() && #[trigger] ins[i].unspent_id == id
}

/// The unspent outputs that no input refers to, in their order.
pub open spec fn remove_spent(s: Seq<UtxoView>, ins: Seq<TransactionIn>) -> Seq<UtxoView>
    decreases s.len(),
{
    if s.len() == 0 {
        Seq::empty()
    } else {
        let r = remove_spent(s.drop_last(), ins);
        if spends(ins, s.last().id) {
            r
        } else {
            r.push(s.last())
        }
    }
}

/// A transaction applied to the unspent outputs: its outputs are added
/// under fresh ids, then every output that it spends is removed.
pub open spec fn spec_tx_step(tx: TxView, prev: Seq<UtxoView>, first_id: int) -> (Seq<UtxoView>, int) {
    (remove_spent(prev + spec_outs_to_utxos(tx.out, first_id), tx.tx_in), first_id + tx.out.len())
}

/// The fee of a transaction becomes an unspent output of the miner.
pub open spec fn spec_fee_step(tx: TxView, miner: Seq<char>, prev: Seq<UtxoView>, id: int) -> (Seq<
    UtxoView,
>, int) {
    (prev.push(UtxoView { id: id as u64, address: miner, amount: tx.fee }), id + 1)
}

/// One transaction of a block: applied, then its fee paid to the miner.
pub open spec fn spec_block_tx_step(tx: TxView, miner: Seq<char>, st: (Seq<UtxoView>, int)) -> (Seq<
    UtxoView,
>, int) {
    let s = spec_tx_step(tx, st.0, st.1);
    spec_fee_step(tx, miner, s.0, s.1)
}

/// The transactions of a block applied in order.
pub open spec fn spec_fold_txs(
    txs: Seq<TxView>,
    miner: Seq<char>,
    prev: Seq<UtxoView>,
    first_id: int,
) -> (Seq<UtxoView>, int)
    decreases txs.len(),
{
    if txs.len() == 0 {
        (prev, first_id)
    } else {
        spec_block_tx_step(txs.last(), miner, spec_fold_txs(txs.drop_last(), miner, prev, first_id))
    }
}

/// A block applied to the unspent outputs.
pub open spec fn spec_block_step(b: BlockView, prev: Seq<UtxoView>, first_id: int) -> (Seq<
    UtxoView,
>, int) {
    spec_fold_txs(b.transactions, b.issuer, prev, first_id)
}

/// The unspent outputs of a chain and the next free id: the blocks applied
/// in order to nothing, with ids from 1.
pub open spec fn spec_chain_utxos(blocks: Seq<BlockView>) -> (Seq<UtxoView>, int)
    decreases blocks.len(),
{
    if blocks.len() == 0 {
        (Seq::empty(), 1)
    } else {
        let p = spec_chain_utxos(blocks.drop_last());
        spec_block_step(blocks.last(), p.0, p.1)
    }
}

/// How many ids the transactions of a block use up: one per output and one
/// per fee.
pub open spec fn spec_txs_span(txs: Seq<TxView>) -> int
    decreases txs.len(),
{
    if txs.len() == 0 {
        0
    } else {
        spec_txs_span(txs.drop_last()) + txs.last().out.len() + 1
    }
}

/// How many ids the blocks of a chain use up.
pub open spec fn spec_blocks_span(blocks: Seq<BlockView>) -> int
    decreases blocks.len(),
{
    if blocks.len() == 0 {
        0
    } else {
        spec_blocks_span(blocks.drop_last()) + spec_txs_span(blocks.last().transactions)
    }
}

/// Whether every id that a chain hands out fits in 64 bits.
pub open spec fn spec_ids_fit(blocks: Seq<BlockView>) -> bool {
    1 + spec_blocks_span(blocks) <= u64::MAX
}

/// No id occurs twice.
pub open spec fn ids_distinct(s: Seq<UtxoView>) -> bool {
    forall|i: int, j: int| 0 <= i < j < s.len() ==> s[i].id != s[j].id
}

/// Every id lies in `[lo, hi)`.
pub open spec fn ids_within(s: Seq<UtxoView>, lo: int, hi: int) -> bool {
    forall|i: int| 0 <= i < s.len() ==> lo <= #[trigger] s[i].id < hi
}

pub proof fn lemma_txs_span_nonneg(txs: Seq<TxView>)
    ensures
        spec_txs_span(txs) >= 0,
    decreases txs.len(),
{
    if txs.len() > 0 {
        lemma_txs_span_nonneg(txs.drop_last());
    }
}

pub proof fn lemma_blocks_span_nonneg(blocks: Seq<BlockView>)
    ensures
        spec_blocks_span(blocks) >= 0,
    decreases blocks.len(),
{
    if blocks.len() > 0 {
        lemma_blocks_span_nonneg(blocks.drop_last());
        lemma_txs_span_nonneg(blocks.last().transactions);
    }
}

/// The next id after a block's transactions is the first id plus their span.
pub proof fn lemma_fold_txs_next_id(txs: Seq<TxView>, miner: Seq<char>, prev: Seq<UtxoView>, first_id: int)
    ensures
        spec_fold_txs(txs, miner, prev, first_id).1 == first_id + spec_txs_span(txs),
    decreases txs.len(),
{
    if txs.len() > 0 {
        lemma_fold_txs_next_id(txs.drop_last(), miner, prev, first_id);
    }
}

/// The next id of a chain is one plus its span.
pub proof fn lemma_chain_next_id(blocks: Seq<BlockView>)
    ensures
        spec_chain_utxos(blocks).1 == 1 + spec_blocks_span(blocks),
    decreases blocks.len(),
{
    if blocks.len() > 0 {
        lemma_chain_next_id(blocks.drop_last());
        let p = spec_chain_utxos(blocks.drop_last());
        lemma_fold_txs_next_id(blocks.last().transactions, blocks.last().issuer, p.0, p.1);
    }
}

/// A prefix of a chain uses up no more ids than the chain.
pub proof fn lemma_blocks_span_prefix(blocks: Seq<BlockView>, k: int)
    requires
        0 <= k <= blocks.len(),
    ensures
        spec_blocks_span(blocks.take(k)) <= spec_blocks_span(blocks),
    decreases blocks.len() - k,
{
    if k < blocks.len() {
        lemma_blocks_span_prefix(blocks.drop_last(), k);
        assert(blocks.drop_last().take(k) =~= blocks.take(k));
        lemma_txs_span_nonneg(blocks.last().transactions);
    } else {
        assert(blocks.take(k) =~= blocks);
    }
}

/// A prefix of a block's transactions uses up no more ids than all of them.
pub proof fn lemma_txs_span_prefix(txs: Seq<TxView>, k: int)
    requires
        0 <= k <= txs.len(),
    ensures
        spec_txs_span(txs.take(k)) <= spec_txs_span(txs),
    decreases txs.len() - k,
{
    if k < txs.len() {
        lemma_txs_span_prefix(txs.drop_last(), k);
        assert(txs.drop_last().take(k) =~= txs.take(k));
    } else {
        assert(txs.take(k) =~= txs);
    }
}

/// Removing spent outputs keeps some of the outputs, in their order.
pub proof fn lemma_remove_spent_sub(s: Seq<UtxoView>, ins: Seq<TransactionIn>)
    ensures
        forall|i: int| 0 <= i < remove_spent(s, ins).len() ==> s.contains(#[trigger] remove_spent(s, ins)[i]),
        ids_distinct(s) ==> ids_distinct(remove_spent(s, ins)),
    decreases s.len(),
{
    if s.len() > 0 {
        let rest = s.drop_last();
        lemma_remove_spent_sub(rest, ins);
        let r = remove_spent(rest, ins);
        assert forall|i: int| 0 <= i < r.len() implies s.contains(#[trigger] r[i]) by {
            let j = choose|j: int| 0 <= j < rest.len() && rest[j] == r[i];
            assert(s[j] == rest[j]);
        }
        if !spends(ins, s.last().id) {
            let r2 = r.push(s.last());
            assert forall|i: int| 0 <= i < r2.len() implies s.contains(#[trigger] r2[i]) by {
                if i < r.len() {
                    assert(r2[i] == r[i]);
                } else {
                    assert(s[s.len() - 1] == r2[i]);
                }
            }
            if ids_distinct(s) {
                assert(ids_distinct(rest));
                assert forall|i: int, j: int| 0 <= i < j < r2.len() implies r2[i].id != r2[j].id by {
                    if j == r.len() {
                        assert(r2[i] == r[i]);
                        let k = choose|k: int| 0 <= k < rest.len() && rest[k] == r[i];
                        assert(s[k] == rest[k]);
                    } else {
                        assert(r2[i] == r[i]);
                        assert(r2[j] == r[j]);
                    }
                }
            }
        } else {
            if ids_distinct(s) {
                assert(ids_distinct(rest));
            }
        }
    }
}

/// Applying one transaction of a block and paying its fee keeps the ids
/// distinct and below the next free id.
proof fn lemma_block_tx_step_ids(tx: TxView, miner: Seq<char>, prev: Seq<UtxoView>, first_id: int)
    requires
        ids_distinct(prev),
        ids_within(prev, 1, first_id),
        first_id >= 1,
        first_id + tx.out.len() + 1 <= u64::MAX,
    ensures
        ids_distinct(spec_block_tx_step(tx, miner, (prev, first_id)).0),
        ids_within(spec_block_tx_step(tx, miner, (prev, first_id)).0, 1, spec_block_tx_step(tx, miner, (prev, first_id)).1),
        spec_block_tx_step(tx, miner, (prev, first_id)).1 == first_id + tx.out.len() + 1,
{
    let fresh = spec_outs_to_utxos(tx.out, first_id);
    let all = prev + fresh;
    let next = first_id + tx.out.len();
    assert forall|i: int| 0 <= i < fresh.len() implies #[trigger] fresh[i].id == first_id + i by {
    }
    assert(ids_distinct(all)) by {
        assert forall|i: int, j: int| 0 <= i < j < all.len() implies all[i].id != all[j].id by {
            if j < prev.len() {
                assert(all[i] == prev[i]);
                assert(all[j] == prev[j]);
            } else if i < prev.len() {
                assert(all[i] == prev[i]);
                assert(all[j] == fresh[j - prev.len()]);
                assert(prev[i].id < first_id);
            } else {
                assert(all[i] == fresh[i - prev.len()]);
                assert(all[j] == fresh[j - prev.len()]);
            }
        }
    }
    assert(ids_within(all, 1, next)) by {
        assert forall|i: int| 0 <= i < all.len() implies 1 <= #[trigger] all[i].id < next by {
            if i < prev.len() {
                assert(all[i] == prev[i]);
            } else {
                assert(all[i] == fresh[i - prev.len()]);
            }
        }
    }
    let kept = remove_spent(all, tx.tx_in);
    lemma_remove_spent_sub(all, tx.tx_in);
    assert(ids_within(kept, 1, next)) by {
        assert forall|i: int| 0 <= i < kept.len() implies 1 <= #[trigger] kept[i].id < next by {
            assert(all.contains(kept[i]));
            let k = choose|k: int| 0 <= k < all.len() && all[k] == kept[i];
        }
    }
    let out = kept.push(UtxoView { id: next as u64, address: miner, amount: tx.fee });
    assert(ids_distinct(out)) by {
        assert forall|i: int, j: int| 0 <= i < j < out.len() implies out[i].id != out[j].id by {
            assert(out[i] == kept[i]);
            if j < kept.len() {
                assert(out[j] == kept[j]);
            }
        }
    }
    assert(ids_within(out, 1, next + 1)) by {
        assert forall|i: int| 0 <= i < out.len() implies 1 <= #[trigger] out[i].id < next + 1 by {
            if i < kept.len() {
                assert(out[i] == kept[i]);
            }
        }
    }
}

/// Applying a block's transactions keeps the ids distinct and below the
/// next free id.
proof fn lemma_fold_txs_ids(txs: Seq<TxView>, miner: Seq<char>, prev: Seq<UtxoView>, first_id: int)
    requires
        ids_distinct(prev),
        ids_within(prev, 1, first_id),
        first_id >= 1,
        first_id + spec_txs_span(txs) <= u64::MAX,
    ensures
        ids_distinct(spec_fold_txs(txs, miner, prev, first_id).0),
        ids_within(spec_fold_txs(txs, miner, prev, first_id).0, 1, spec_fold_txs(txs, miner, prev, first_id).1),
        spec_fold_txs(txs, miner, prev, first_id).1 >= first_id,
    decreases txs.len(),
{
    if txs.len() > 0 {
        lemma_txs_span_nonneg(txs.drop_last());
        lemma_fold_txs_ids(txs.drop_last(), miner, prev, first_id);
        lemma_fold_txs_next_id(txs.drop_last(), miner, prev, first_id);
        let mid = spec_fold_txs(txs.drop_last(), miner, prev, first_id);
        lemma_block_tx_step_ids(txs.last(), miner, mid.0, mid.1);
    }
}

/// The unspent outputs of a chain whose ids fit carry distinct ids, each
/// at least 1 and below the chain's next free id.
pub proof fn lemma_chain_utxo_ids(blocks: Seq<BlockView>)
    requires
        spec_ids_fit(blocks),
    ensures
        ids_distinct(spec_chain_utxos(blocks).0),
        ids_within(spec_chain_utxos(blocks).0, 1, spec_chain_utxos(blocks).1),
    decreases blocks.len(),
{
    if blocks.len() > 0 {
        let rest = blocks.drop_last();
        assert(blocks.take(blocks.len() - 1) =~= rest);
        lemma_blocks_span_prefix(blocks, blocks.len() - 1);
        lemma_chain_utxo_ids(rest);
        lemma_chain_next_id(rest);
        lemma_blocks_span_nonneg(rest);
        let p = spec_chain_utxos(rest);
        lemma_fold_txs_ids(blocks.last().transactions, blocks.last().issuer, p.0, p.1);
    }
}

/// Whether an input list refers to an id, computed.
fn spends_id(ins: &Vec<TransactionIn>, id: u64) -> (r: bool)
    ensures
        r == spends(ins@, id),
{
    let mut i: usize = 0;
    while i < ins.len()
        invariant
            0 <= i <= ins@.len(),
            forall|j: int| 0 <= j < i ==> ins@[j].unspent_id != id,
        decreases ins@.len() - i,
    {
        if ins[i].unspent_id == id {
            return true;
        }
        i = i + 1;
    }
    false
}

impl Transaction {
    /// Applies this transaction to the unspent outputs and the next free
    /// id: the outputs are added under fresh ids, then every output that it
    /// spends is removed.
    pub fn get_unspent_transactions(&self, state: (Vec<UnspentTransaction>, u64)) -> (r: (
        Vec<UnspentTransaction>,
        u64,
    ))
        requires
            state.1 + self@.out.len() <= u64::MAX,
        ensures
            (utxos_view(r.0@), r.1 as int) == spec_tx_step(self@, utxos_view(state.0@), state.1 as int),
    {
        let (previous_unspent, first_id) = state;
        let ghost prev = utxos_view(previous_unspent@);
        let mut acc = previous_unspent;
        let mut id = first_id;
        let mut i: usize = 0;
        while i < self.out.len()
            invariant
                0 <= i <= self.out@.len(),
                first_id + self.out@.len() <= u64::MAX,
                id == first_id + i,
                acc@.len() == prev.len() + i,
                utxos_view(acc@) == prev + spec_outs_to_utxos(self@.out.take(i as int), first_id as int),
            decreases self.out@.len() - i,
        {
            let (unspent, next) = self.out[i].to_unspent(id);
            let ghost before = acc@;
            acc.push(unspent);
            proof {
                assert(acc@ == before.push(unspent));
                assert(self@.out[i as int] == self.out@[i as int]@);
                assert(utxos_view(acc@) =~= utxos_view(before).push(unspent@));
                assert(utxos_view(acc@) =~= prev + spec_outs_to_utxos(
                    self@.out.take(i + 1),
                    first_id as int,
                ));
            }
            id = next;
            i = i + 1;
        }
        proof {
            assert(self@.out.take(self@.out.len() as int) =~= self@.out);
        }
        let ghost all = utxos_view(acc@);
        let mut kept: Vec<UnspentTransaction> = Vec::new();
        let mut k: usize = 0;
        while k < acc.len()
            invariant
                0 <= k <= acc@.len(),
                all == utxos_view(acc@),
                utxos_view(kept@) == remove_spent(all.take(k as int), self.tx_in@),
            decreases acc@.len() - k,
        {
            proof {
                assert(all.take(k + 1).drop_last() =~= all.take(k as int));
            }
            if !spends_id(&self.tx_in, acc[k].id) {
                kept.push(acc[k].clone());
                proof {
                    assert(utxos_view(kept@) =~= remove_spent(all.take(k + 1), self.tx_in@));
                }
            }
            k = k + 1;
        }
        proof {
            assert(all.take(acc@.len() as int) =~= all);
        }
        (kept, id)
    }

    /// Pays the fee of this transaction to the miner as a new unspent output
    /// under the next free id.
    pub fn fee_to_unspent_transaction(&self, miner: Address, state: (Vec<UnspentTransaction>, u64)) -> (r: (
        Vec<UnspentTransaction>,
        u64,
    ))
        requires
            state.1 < u64::MAX,
        ensures
            (utxos_view(r.0@), r.1 as int) == spec_fee_step(
                self@,
                miner@,
                utxos_view(state.0@),
                state.1 as int,
            ),
    {
        let (previous_unspent, first_id) = state;
        let mut next = clone_utxos(&previous_unspent);
        let ghost before = next@;
        next.push(UnspentTransaction { id: first_id, address: miner, amount: self.fee });
        proof {
            assert(next@ == before.push(next@.last()));
            assert(utxos_view(next@) =~= utxos_view(previous_unspent@).push(
                UtxoView { id: first_id, address: miner@, amount: self.fee },
            ));
        }
        (next, first_id + 1)
    }
}

impl Block {
    /// Applies the transactions of this block in order, each followed by its
    /// fee to the issuer.
    pub fn get_unspent_transactions(&self, state: (Vec<UnspentTransaction>, u64)) -> (r: (
        Vec<UnspentTransaction>,
        u64,
    ))
        requires
            state.1 + spec_txs_span(self@.transactions) <= u64::MAX,
        ensures
            (utxos_view(r.0@), r.1 as int) == spec_block_step(
                self@,
                utxos_view(state.0@),
                state.1 as int,
            ),
    {
        let ghost prev = utxos_view(state.0@);
        let ghost first = state.1 as int;
        let ghost txs = self@.transactions;
        let mut st = state;
        let mut i: usize = 0;
        proof {
            assert(txs.take(0) =~= Seq::<TxView>::empty());
        }
        while i < self.transactions.len()
            invariant
                0 <= i <= txs.len(),
                txs == self@.transactions,
                first + spec_txs_span(txs) <= u64::MAX,
                (utxos_view(st.0@), st.1 as int) == spec_fold_txs(txs.take(i as int), self@.issuer, prev, first),
            decreases txs.len() - i,
        {
            let tx = &self.transactions[i];
            proof {
                assert(txs.take(i + 1).drop_last() =~= txs.take(i as int));
                assert(txs.take(i + 1).last() == tx@);
                lemma_fold_txs_next_id(txs.take(i + 1), self@.issuer, prev, first);
                lemma_fold_txs_next_id(txs.take(i as int), self@.issuer, prev, first);
                lemma_txs_span_prefix(txs, i + 1);
            }
            let after = tx.get_unspent_transactions(st);
            st = tx.fee_to_unspent_transaction(self.issuer.clone(), after);
            i = i + 1;
        }
        proof {
            assert(txs.take(txs.len() as int) =~= txs);
        }
        st
    }
}

impl Chain {
    /// The unspent outputs of the chain and the next free id.
    pub fn get_unspent_transactions(&self) -> (r: (Vec<UnspentTransaction>, u64))
        requires
            spec_ids_fit(self@),
        ensures
            (utxos_view(r.0@), r.1 as int) == spec_chain_utxos(self@),
    {
        let ghost bs = self@;
        let mut st: (Vec<UnspentTransaction>, u64) = (Vec::new(), 1);
        let mut i: usize = 0;
        proof {
            assert(bs.take(0) =~= Seq::<BlockView>::empty());
            assert(utxos_view(st.0@) =~= Seq::<UtxoView>::empty());
        }
        while i < self.blocks.len()
            invariant
                0 <= i <= bs.len(),
                bs == self@,
                1 + spec_blocks_span(bs) <= u64::MAX,
                (utxos_view(st.0@), st.1 as int) == spec_chain_utxos(bs.take(i as int)),
            decreases bs.len() - i,
        {
            let block = &self.blocks[i];
            proof {
                assert(bs.take(i + 1).drop_last() =~= bs.take(i as int));
                assert(bs.take(i + 1).last() == block@);
                lemma_chain_next_id(bs.take(i + 1));
                lemma_chain_next_id(bs.take(i as int));
                lemma_blocks_span_prefix(bs, i + 1);
                lemma_fold_txs_next_id(block@.transactions, block@.issuer, utxos_view(st.0@), st.1 as int);
            }
            st = block.get_unspent_transactions(st);
            i = i + 1;
        }
        proof {
            assert(bs.take(bs.len() as int) =~= bs);
        }
        st
    }
}


/// What the inputs bring in: for each input, the amount of the output it
/// refers to, where that output is there.
pub open spec fn spec_input_total(ins: Seq<TransactionIn>, utxos: Seq<UtxoView>) -> int
    decreases ins.len(),
{
    if ins.len() == 0 {
        0
    } else {
        spec_input_total(ins.drop_last(), utxos) + match spec_find_amount(utxos, ins.last().unspent_id) {
            Some(a) => a as int,
            None => 0,
        }
    }
}

/// The first unspent output with the id, if any.
pub open spec fn spec_find_utxo(utxos: Seq<UtxoView>, id: u64) -> Option<UtxoView>
    decreases utxos.len(),
{
    if utxos.len() == 0 {
        None
    } else if utxos[0].id == id {
        Some(utxos[0])
    } else {
        spec_find_utxo(utxos.drop_first(), id)
    }
}

/// The unspent outputs whose ids are listed, in their order.
pub open spec fn spec_filter_ids(utxos: Seq<UtxoView>, ids: Seq<u64>) -> Seq<UtxoView>
    decreases utxos.len(),
{
    if utxos.len() == 0 {
        Seq::empty()
    } else {
        let r = spec_filter_ids(utxos.drop_last(), ids);
        if ids.contains(utxos.last().id) {
            r.push(utxos.last())
        } else {
            r
        }
    }
}

/// The unspent outputs that belong to an address, in their order.
pub open spec fn spec_filter_address(utxos: Seq<UtxoView>, address: Seq<char>) -> Seq<UtxoView>
    decreases utxos.len(),
{
    if utxos.len() == 0 {
        Seq::empty()
    } else {
        let r = spec_filter_address(utxos.drop_last(), address);
        if utxos.last().address == address {
            r.push(utxos.last())
        } else {
            r
        }
    }
}

/// The coins that an address holds in a chain.
pub open spec fn spec_balance(blocks: Seq<BlockView>, address: Seq<char>) -> int {
    spec_sum_utxos(spec_filter_address(spec_chain_utxos(blocks).0, address))
}

/// What the inputs of a transaction bring in, where it fits in 128 bits.
pub fn input_total_wide(tx: &Transaction, unspent_transactions: &[UnspentTransaction]) -> (r: u128)
    ensures
        r == spec_input_total(tx@.tx_in, utxos_view(unspent_transactions@)),
{
    let ghost u = utxos_view(unspent_transactions@);
    let mut total: u128 = 0;
    let mut i: usize = 0;
    while i < tx.tx_in.len()
        invariant
            0 <= i <= tx@.tx_in.len(),
            u == utxos_view(unspent_transactions@),
            total == spec_input_total(tx@.tx_in.take(i as int), u),
            total <= i * 0xffff_ffff_ffff_ffff,
        decreases tx@.tx_in.len() - i,
    {
        proof {
            assert(tx@.tx_in.take(i + 1).drop_last() =~= tx@.tx_in.take(i as int));
            assert(i * 0xffff_ffff_ffff_ffff + 0xffff_ffff_ffff_ffff == (i + 1) * 0xffff_ffff_ffff_ffff)
                by (nonlinear_arith);
            assert((i + 1) * 0xffff_ffff_ffff_ffff <= 0xffff_ffff_ffff_ffff * 0xffff_ffff_ffff_ffff)
                by (nonlinear_arith)
                requires
                    i + 1 <= 0xffff_ffff_ffff_ffff,
            ;
        }
        match tx.tx_in[i].get_amount(unspent_transactions) {
            Some(a) => {
                total = total + a as u128;
            },
            None => {},
        }
        i = i + 1;
    }
    proof {
        assert(tx@.tx_in.take(tx@.tx_in.len() as int) =~= tx@.tx_in);
    }
    total
}

impl Transaction {
    /// What the inputs of this transaction bring in: the amounts of the
    /// outputs they refer to, where those are there.
    pub fn calc_total_input_amount(&self, unspent_transactions: &[UnspentTransaction]) -> (r: u64)
        requires
            spec_input_total(self@.tx_in, utxos_view(unspent_transactions@)) <= u64::MAX,
        ensures
            r == spec_input_total(self@.tx_in, utxos_view(unspent_transactions@)),
    {
        input_total_wide(self, unspent_transactions) as u64
    }
}

impl Chain {
    /// The unspent output with the id, if the chain has one.
    pub fn find_unspent_transaction(&self, unspent_id: u64) -> (r: Option<UnspentTransaction>)
        requires
            spec_ids_fit(self@),
        ensures
            match r {
                Some(u) => spec_find_utxo(spec_chain_utxos(self@).0, unspent_id) == Some(u@),
                None => spec_find_utxo(spec_chain_utxos(self@).0, unspent_id) is None,
            },
    {
        let (unspent_transactions, _) = self.get_unspent_transactions();
        let ghost v = utxos_view(unspent_transactions@);
        let mut i: usize = 0;
        proof {
            assert(v.skip(0) =~= v);
        }
        while i < unspent_transactions.len()
            invariant
                0 <= i <= v.len(),
                v == utxos_view(unspent_transactions@),
                v == spec_chain_utxos(self@).0,
                spec_find_utxo(v, unspent_id) == spec_find_utxo(v.skip(i as int), unspent_id),
            decreases v.len() - i,
        {
            proof {
                assert(v.skip(i as int).drop_first() =~= v.skip(i + 1));
            }
            if unspent_transactions[i].id == unspent_id {
                let u = unspent_transactions[i].clone();
                proof {
                    assert(v.skip(i as int)[0] == v[i as int]);
                    assert(v[i as int] == unspent_transactions@[i as int]@);
                }
                return Some(u);
            }
            i = i + 1;
        }
        None
    }

    /// The unspent outputs of the chain whose ids are listed.
    pub fn find_unspent_transactions(&self, unspent_ids: &[u64]) -> (r: Vec<UnspentTransaction>)
        requires
            spec_ids_fit(self@),
        ensures
            utxos_view(r@) == spec_filter_ids(spec_chain_utxos(self@).0, unspent_ids@),
    {
        let (unspent_transactions, _) = self.get_unspent_transactions();
        let ghost v = utxos_view(unspent_transactions@);
        let mut r: Vec<UnspentTransaction> = Vec::new();
        let mut i: usize = 0;
        while i < unspent_transactions.len()
            invariant
                0 <= i <= v.len(),
                v == utxos_view(unspent_transactions@),
                utxos_view(r@) == spec_filter_ids(v.take(i as int), unspent_ids@),
            decreases v.len() - i,
        {
            proof {
                assert(v.take(i + 1).drop_last() =~= v.take(i as int));
            }
            let id = unspent_transactions[i].id;
            let mut found = false;
            let mut j: usize = 0;
            while j < unspent_ids.len()
                invariant
                    0 <= j <= unspent_ids@.len(),
                    found == exists|k: int| 0 <= k < j && unspent_ids@[k] == id,
                decreases unspent_ids@.len() - j,
            {
                if unspent_ids[j] == id {
                    found = true;
                }
                j = j + 1;
            }
            if found {
                r.push(unspent_transactions[i].clone());
            }
            proof {
                assert(utxos_view(r@) =~= spec_filter_ids(v.take(i + 1), unspent_ids@));
            }
            i = i + 1;
        }
        proof {
            assert(v.take(v.len() as int) =~= v);
        }
        r
    }

    /// The unspent outputs of the chain that belong to the address.
    pub fn filter_unspent_transactions_by_address(&self, address: &Address) -> (r: Vec<
        UnspentTransaction,
    >)
        requires
            spec_ids_fit(self@),
        ensures
            utxos_view(r@) == spec_filter_address(spec_chain_utxos(self@).0, address@),
    {
        let (unspent_transactions, _) = self.get_unspent_transactions();
        let ghost v = utxos_view(unspent_transactions@);
        let mut r: Vec<UnspentTransaction> = Vec::new();
        let mut i: usize = 0;
        while i < unspent_transactions.len()
            invariant
                0 <= i <= v.len(),
                v == utxos_view(unspent_transactions@),
                utxos_view(r@) == spec_filter_address(v.take(i as int), address@),
            decreases v.len() - i,
        {
            proof {
                assert(v.take(i + 1).drop_last() =~= v.take(i as int));
            }
            if unspent_transactions[i].address.der == address.der {
                r.push(unspent_transactions[i].clone());
            }
            proof {
                assert(utxos_view(r@) =~= spec_filter_address(v.take(i + 1), address@));
            }
            i = i + 1;
        }
        proof {
            assert(v.take(v.len() as int) =~= v);
        }
        r
    }

    /// The coins that an address holds, or `None` where the sum does not fit
    /// in 64 bits.
    pub fn checked_balance(&self, address: &Address) -> (r: Option<u64>)
        requires
            spec_ids_fit(self@),
        ensures
            match r {
                Some(b) => b == spec_balance(self@, address@),
                None => spec_balance(self@, address@) > u64::MAX,
            },
    {
        let mine = self.filter_unspent_transactions_by_address(address);
        let ghost v = utxos_view(mine@);
        let mut total: u128 = 0;
        let mut i: usize = 0;
        while i < mine.len()
            invariant
                0 <= i <= v.len(),
                v == utxos_view(mine@),
                v == spec_filter_address(spec_chain_utxos(self@).0, address@),
                total == spec_sum_utxos(v.take(i as int)),
                total <= u64::MAX,
            decreases v.len() - i,
        {
            proof {
                assert(v.take(i + 1).drop_last() =~= v.take(i as int));
            }
            total = total + mine[i].amount as u128;
            if total > u64::MAX as u128 {
                proof {
                    lemma_sum_prefix_le(v, i + 1);
                }
                return None;
            }
            i = i + 1;
        }
        proof {
            assert(v.take(v.len() as int) =~= v);
        }
        Some(total as u64)
    }

    /// The coins that an address holds.
    pub fn get_balance(&self, address: &Address) -> (r: u64)
        requires
            spec_ids_fit(self@),
            spec_balance(self@, address@) <= u64::MAX,
        ensures
            r == spec_balance(self@, address@),
    {
        match self.checked_balance(address) {
            Some(b) => b,
            None => 0,
        }
    }
}

proof fn lemma_sum_prefix_le(s: Seq<UtxoView>, k: int)
    requires
        0 <= k <= s.len(),
    ensures
        spec_sum_utxos(s.take(k)) <= spec_sum_utxos(s),
{
    crate::utxo::lemma_sum_utxos_prefix_monotone(s, k, s.len() as int);
    assert(s.take(s.len() as int) =~= s);
}


/// The ids that a transaction spends, in order.
pub open spec fn spec_tx_ids(tx: TxView) -> Seq<u64> {
    tx.tx_in.map_values(|i: TransactionIn| i.unspent_id)
}

/// The ids that some transactions spend, in order.
pub open spec fn spec_txs_ids(txs: Seq<TxView>) -> Seq<u64>
    decreases txs.len(),
{
    if txs.len() == 0 {
        Seq::empty()
    } else {
        spec_txs_ids(txs.drop_last()) + spec_tx_ids(txs.last())
    }
}

/// The ids that a transaction spends.
pub fn transaction_to_unspent_ids(transaction: &Transaction) -> (r: Vec<u64>)
    ensures
        r@ == spec_tx_ids(transaction@),
{
    let mut r: Vec<u64> = Vec::new();
    let mut i: usize = 0;
    while i < transaction.tx_in.len()
        invariant
            0 <= i <= transaction@.tx_in.len(),
            r@ == spec_tx_ids(transaction@).take(i as int),
        decreases transaction@.tx_in.len() - i,
    {
        r.push(transaction.tx_in[i].unspent_id);
        proof {
            assert(r@ =~= spec_tx_ids(transaction@).take(i + 1));
        }
        i = i + 1;
    }
    proof {
        assert(spec_tx_ids(transaction@).take(transaction@.tx_in.len() as int) =~= spec_tx_ids(transaction@));
    }
    r
}

/// The ids that some transactions spend.
pub fn transactions_to_unspent_ids(transactions: &[Transaction]) -> (r: Vec<u64>)
    ensures
        r@ == spec_txs_ids(txs_view(transactions@)),
{
    let ghost t = txs_view(transactions@);
    let mut r: Vec<u64> = Vec::new();
    let mut i: usize = 0;
    while i < transactions.len()
        invariant
            0 <= i <= t.len(),
            t == txs_view(transactions@),
            r@ == spec_txs_ids(t.take(i as int)),
        decreases t.len() - i,
    {
        let mut ids = transaction_to_unspent_ids(&transactions[i]);
        r.append(&mut ids);
        proof {
            assert(t.take(i + 1).drop_last() =~= t.take(i as int));
            assert(t.take(i + 1).last() == transactions@[i as int]@);
        }
        i = i + 1;
    }
    proof {
        assert(t.take(t.len() as int) =~= t);
    }
    r
}

/// Whether `id` is among `ids`.
pub fn ids_contain(ids: &Vec<u64>, id: u64) -> (r: bool)
    ensures
        r == ids@.contains(id),
{
    let mut i: usize = 0;
    while i < ids.len()
        invariant
            0 <= i <= ids@.len(),
            forall|j: int| 0 <= j < i ==> ids@[j] != id,
        decreases ids@.len() - i,
    {
        if ids[i] == id {
            proof {
                assert(ids@[i as int] == id);
            }
            return true;
        }
        i = i + 1;
    }
    false
}

/// Removing what some inputs spend leaves no output that an input names,
/// and keeps every output that no input names.
proof fn lemma_remove_spent_exact(s: Seq<UtxoView>, ins: Seq<TransactionIn>)
    ensures
        forall|j: int, k: int|
            0 <= j < remove_spent(s, ins).len() && 0 <= k < ins.len() ==> #[trigger] remove_spent(s, ins)[j].id
                != #[trigger] ins[k].unspent_id,
        forall|j: int|
            0 <= j < s.len() && (forall|k: int| 0 <= k < ins.len() ==> #[trigger] ins[k].unspent_id != s[j].id)
                ==> remove_spent(s, ins).contains(#[trigger] s[j]),
    decreases s.len(),
{
    if s.len() > 0 {
        let rest = s.drop_last();
        lemma_remove_spent_exact(rest, ins);
        let r = remove_spent(rest, ins);
        if spends(ins, s.last().id) {
            assert forall|j: int|
                0 <= j < s.len() && (forall|k: int| 0 <= k < ins.len() ==> #[trigger] ins[k].unspent_id != s[j].id)
                    implies remove_spent(s, ins).contains(#[trigger] s[j]) by {
                if j == s.len() - 1 {
                    let k = choose|k: int| 0 <= k < ins.len() && #[trigger] ins[k].unspent_id == s.last().id;
                    assert(ins[k].unspent_id != s[j].id);
                } else {
                    assert(rest[j] == s[j]);
                }
            }
        } else {
            let r2 = r.push(s.last());
            assert forall|j: int, k: int|
                0 <= j < r2.len() && 0 <= k < ins.len() implies #[trigger] r2[j].id != #[trigger] ins[k].unspent_id by {
                if j < r.len() {
                    assert(r2[j] == r[j]);
                } else {
                    if r2[j].id == ins[k].unspent_id {
                        assert(spends(ins, s.last().id));
                    }
                }
            }
            assert forall|j: int|
                0 <= j < s.len() && (forall|k: int| 0 <= k < ins.len() ==> #[trigger] ins[k].unspent_id != s[j].id)
                    implies r2.contains(#[trigger] s[j]) by {
                if j == s.len() - 1 {
                    assert(r2[r.len() as int] == s[j]);
                } else {
                    assert(rest[j] == s[j]);
                    assert(r.contains(s[j]));
                    let m = choose|m: int| 0 <= m < r.len() && r[m] == s[j];
                    assert(r2[m] == s[j]);
                }
            }
        }
    }
}

/// After a transaction is applied, no unspent output carries an id that
/// one of its inputs names; every earlier output that no input names is
/// kept; each of its outputs becomes an unspent output under the next
/// fresh id unless an input names that id; and the next free id moves on
/// by the number of its outputs.
pub proof fn lemma_tx_step_spends_exactly_its_inputs(tx: TxView, prev: Seq<UtxoView>, first_id: int)
    ensures
        forall|j: int, k: int|
            0 <= j < spec_tx_step(tx, prev, first_id).0.len() && 0 <= k < tx.tx_in.len()
                ==> #[trigger] spec_tx_step(tx, prev, first_id).0[j].id != #[trigger] tx.tx_in[k].unspent_id,
        forall|j: int|
            0 <= j < prev.len() && (forall|k: int| 0 <= k < tx.tx_in.len() ==> #[trigger] tx.tx_in[k].unspent_id != prev[j].id)
                ==> spec_tx_step(tx, prev, first_id).0.contains(#[trigger] prev[j]),
        forall|j: int|
            #![trigger tx.out[j]]
            0 <= j < tx.out.len() && (forall|k: int| 0 <= k < tx.tx_in.len() ==> #[trigger] tx.tx_in[k].unspent_id != (first_id + j) as u64)
                ==> spec_tx_step(tx, prev, first_id).0.contains(
                UtxoView { id: (first_id + j) as u64, address: tx.out[j].address, amount: tx.out[j].amount },
            ),
        spec_tx_step(tx, prev, first_id).1 == first_id + tx.out.len(),
{
    let fresh = spec_outs_to_utxos(tx.out, first_id);
    let all = prev + fresh;
    lemma_remove_spent_exact(all, tx.tx_in);
    assert forall|j: int|
        0 <= j < prev.len() && (forall|k: int| 0 <= k < tx.tx_in.len() ==> #[trigger] tx.tx_in[k].unspent_id != prev[j].id)
            implies spec_tx_step(tx, prev, first_id).0.contains(#[trigger] prev[j]) by {
        assert(all[j] == prev[j]);
    }
    assert forall|j: int|
        #![trigger tx.out[j]]
        0 <= j < tx.out.len() && (forall|k: int| 0 <= k < tx.tx_in.len() ==> #[trigger] tx.tx_in[k].unspent_id != (first_id + j) as u64)
            implies spec_tx_step(tx, prev, first_id).0.contains(
            UtxoView { id: (first_id + j) as u64, address: tx.out[j].address, amount: tx.out[j].amount },
        ) by {
        assert(all[prev.len() + j] == fresh[j]);
    }
}

/// The outputs kept for an address are exactly those of the address: each
/// one kept belongs to it and comes from the list, and each one of the list
/// that belongs to it is kept.
pub proof fn lemma_filter_address_exact(utxos: Seq<UtxoView>, address: Seq<char>)
    ensures
        forall|j: int|
            0 <= j < spec_filter_address(utxos, address).len() ==> (#[trigger] spec_filter_address(utxos, address)[j]).address
                == address && utxos.contains(spec_filter_address(utxos, address)[j]),
        forall|j: int|
            0 <= j < utxos.len() && (#[trigger] utxos[j]).address == address ==> spec_filter_address(
                utxos,
                address,
            ).contains(utxos[j]),
    decreases utxos.len(),
{
    if utxos.len() > 0 {
        let rest = utxos.drop_last();
        lemma_filter_address_exact(rest, address);
        let r = spec_filter_address(rest, address);
        let out = spec_filter_address(utxos, address);
        assert forall|j: int| 0 <= j < out.len() implies (#[trigger] out[j]).address == address && utxos.contains(out[j]) by {
            if j < r.len() {
                assert(out[j] == r[j]);
                let m = choose|m: int| 0 <= m < rest.len() && rest[m] == r[j];
                assert(utxos[m] == rest[m]);
            } else {
                assert(out[j] == utxos.last());
                assert(utxos[utxos.len() - 1] == out[j]);
            }
        }
        assert forall|j: int| 0 <= j < utxos.len() && (#[trigger] utxos[j]).address == address implies out.contains(
            utxos[j],
        ) by {
            if j == utxos.len() - 1 {
                assert(out[r.len() as int] == utxos[j]);
            } else {
                assert(rest[j] == utxos[j]);
                let m = choose|m: int| 0 <= m < r.len() && r[m] == utxos[j];
                assert(out[m] == r[m]);
            }
        }
    }
}

/// Looking an id up finds an output with that id where the list has one,
/// and nothing where it has none.
pub proof fn lemma_find_utxo_exact(utxos: Seq<UtxoView>, id: u64)
    ensures
        spec_find_utxo(utxos, id) matches Some(u) ==> u.id == id && utxos.contains(u),
        spec_find_utxo(utxos, id) is None ==> forall|j: int| 0 <= j < utxos.len() ==> (#[trigger] utxos[j]).id != id,
    decreases utxos.len(),
{
    if utxos.len() > 0 {
        lemma_find_utxo_exact(utxos.drop_first(), id);
        if utxos[0].id != id {
            let rest = utxos.drop_first();
            if let Some(u) = spec_find_utxo(rest, id) {
                let m = choose|m: int| 0 <= m < rest.len() && rest[m] == u;
                assert(utxos[m + 1] == u);
            } else {
                assert forall|j: int| 0 <= j < utxos.len() implies (#[trigger] utxos[j]).id != id by {
                    if j > 0 {
                        assert(rest[j - 1] == utxos[j]);
                    }
                }
            }
        } else {
            assert(utxos.contains(utxos[0]));
        }
    }
}

} // verus!
