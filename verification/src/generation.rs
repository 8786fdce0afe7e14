use vstd::prelude::*;

use crate::beacon::Beacon;
use crate::block::{spec_block_message, spec_block_hash, spec_sealed_block, Block, BlockData, BlockDataOwned, BlockDataView};
use crate::chain::{spec_latest_block, Chain};
use crate::coinbase::{coinbase_transaction, spec_coinbase_tx};
use crate::encoding::enc_tx_body;
use crate::key::{spec_key_signs, spec_key_sound, spec_public_key_of, spec_sign, Address, SK};
use crate::state::spec_pool_accepts;
use crate::validation::spec_is_valid_address;
use crate::transaction::{spec_sum_out, spec_total_amount, spec_tx_message, spec_tx_signature_ok, txs_view, Transaction, TxView};
use crate::utxo::{
    flex_unspent_transactions, get_transaction_out, spec_find_amount, spec_flex,
    spec_sum_utxos, utxos_view, TransactionIn, TxOutView, UnspentTransaction, UtxoView,
};
use crate::utxo_state::{
    ids_distinct, spec_filter_ids, spec_input_total, spec_tx_ids,
    ids_contain, spec_chain_utxos, spec_filter_address, spec_ids_fit, spec_txs_ids, transactions_to_unspent_ids,
};

verus! {

/// The content of the block that follows `prev`: the next index, the
/// issuer's reward first and then the given transactions.
pub open spec fn spec_next_block_data(
    prev: Seq<crate::block::BlockView>,
    issuer: Seq<char>,
    beacon: Seq<i32>,
    transactions: Seq<TxView>,
    timestamp: i64,
) -> BlockDataView {
    let tip = spec_latest_block(prev);
    let index = (tip.index + 1) as u64;
    BlockDataView {
        index,
        timestamp,
        transactions: seq![spec_coinbase_tx(issuer, index)] + transactions,
        beacon,
        issuer,
        previous_hash: tip.hash,
    }
}

/// The unspent outputs whose ids are not listed, in their order.
pub open spec fn spec_filter_out_ids(utxos: Seq<UtxoView>, ids: Seq<u64>) -> Seq<UtxoView>
    decreases utxos.len(),
{
    if utxos.len() == 0 {
        Seq::empty()
    } else {
        let r = spec_filter_out_ids(utxos.drop_last(), ids);
        if ids.contains(utxos.last().id) {
            r
        } else {
            r.push(utxos.last())
        }
    }
}

/// The sender's unspent outputs that no pending transaction spends yet, in
/// their order.
pub open spec fn spec_spendable(
    blocks: Seq<crate::block::BlockView>,
    sender: Seq<char>,
    pending: Seq<TxView>,
) -> Seq<UtxoView> {
    spec_filter_out_ids(spec_filter_address(spec_chain_utxos(blocks).0, sender), spec_txs_ids(pending))
}

/// The outputs that a payment of `amount` from `sender` spends: the
/// spendable outputs taken from the first until they reach the amount; none
/// where they fall short.
#[verifier::opaque]
pub open spec fn spec_payment_inputs(
    blocks: Seq<crate::block::BlockView>,
    sender: Seq<char>,
    pending: Seq<TxView>,
    amount: u64,
) -> Seq<UtxoView> {
    spec_flex(amount, spec_spendable(blocks, sender, pending))
}

/// The inputs that spend some unspent outputs, in their order.
pub open spec fn spec_inputs_for(utxos: Seq<UtxoView>) -> Seq<TransactionIn> {
    utxos.map_values(|u: UtxoView| TransactionIn { unspent_id: u.id })
}

/// The outputs of a payment: the amount to the recipient, the change back
/// to the sender.
pub open spec fn spec_payment_outs(
    sender: Seq<char>,
    recipient: Seq<char>,
    send_amount: u64,
    fee: u64,
    total: int,
) -> Seq<TxOutView> {
    seq![
        TxOutView { address: recipient, amount: send_amount },
        TxOutView { address: sender, amount: (total - send_amount - fee) as u64 },
    ]
}

/// The payment that `generate_transaction` makes, where it makes one: the
/// sender's payment inputs, the amount and the change as outputs, and the
/// sender's key's signature of it.
#[verifier::opaque]
pub open spec fn spec_generated_tx(
    blocks: Seq<crate::block::BlockView>,
    sender: Seq<char>,
    recipient: Seq<char>,
    send_amount: u64,
    sk: Seq<char>,
    pending: Seq<TxView>,
    fee: u64,
) -> Option<TxView> {
    let inputs = spec_payment_inputs(blocks, sender, pending, (send_amount + fee) as u64);
    let outs = spec_payment_outs(sender, recipient, send_amount, fee, spec_sum_utxos(inputs));
    let tx_in = spec_inputs_for(inputs);
    if inputs.len() == 0 {
        None
    } else {
        match spec_sign(sk, enc_tx_body(sender, outs, tx_in, fee)) {
            Some(signature) => Some(TxView { sender, out: outs, tx_in, fee, signature }),
            None => None,
        }
    }
}

/// Keeps the unspent outputs whose ids are not listed.
fn remove_listed(utxos: Vec<UnspentTransaction>, ids: &Vec<u64>) -> (r: Vec<UnspentTransaction>)
    ensures
        utxos_view(r@) == spec_filter_out_ids(utxos_view(utxos@), ids@),
{
    let ghost v = utxos_view(utxos@);
    let mut r: Vec<UnspentTransaction> = Vec::new();
    let mut i: usize = 0;
    while i < utxos.len()
        invariant
            0 <= i <= v.len(),
            v == utxos_view(utxos@),
            utxos_view(r@) == spec_filter_out_ids(v.take(i as int), ids@),
        decreases v.len() - i,
    {
        proof {
            assert(v.take(i + 1).drop_last() =~= v.take(i as int));
        }
        if !ids_contain(ids, utxos[i].id) {
            r.push(utxos[i].clone());
        }
        proof {
            assert(utxos_view(r@) =~= spec_filter_out_ids(v.take(i + 1), ids@));
        }
        i = i + 1;
    }
    proof {
        assert(v.take(v.len() as int) =~= v);
    }
    r
}

/// The amounts of some unspent outputs, summed.
fn sum_amounts(utxos: &Vec<UnspentTransaction>) -> (r: u64)
    requires
        spec_sum_utxos(utxos_view(utxos@)) <= u64::MAX,
    ensures
        r == spec_sum_utxos(utxos_view(utxos@)),
{
    let ghost v = utxos_view(utxos@);
    let mut total: u64 = 0;
    let mut i: usize = 0;
    while i < utxos.len()
        invariant
            0 <= i <= v.len(),
            v == utxos_view(utxos@),
            total == spec_sum_utxos(v.take(i as int)),
            spec_sum_utxos(v) <= u64::MAX,
        decreases v.len() - i,
    {
        proof {
            assert(v.take(i + 1).drop_last() =~= v.take(i as int));
            crate::utxo::lemma_sum_utxos_prefix_monotone(v, i + 1, v.len() as int);
            assert(v.take(v.len() as int) =~= v);
        }
        total = total + utxos[i].amount;
        i = i + 1;
    }
    proof {
        assert(v.take(v.len() as int) =~= v);
    }
    total
}

/// The amounts of some unspent outputs, summed; `None` where the sum does
/// not fit in 64 bits.
pub fn checked_sum_amounts(utxos: &Vec<UnspentTransaction>) -> (r: Option<u64>)
    ensures
        match r {
            Some(t) => t == spec_sum_utxos(utxos_view(utxos@)),
            None => spec_sum_utxos(utxos_view(utxos@)) > u64::MAX,
        },
{
    let ghost v = utxos_view(utxos@);
    let mut total: u64 = 0;
    let mut i: usize = 0;
    while i < utxos.len()
        invariant
            0 <= i <= v.len(),
            v == utxos_view(utxos@),
            total == spec_sum_utxos(v.take(i as int)),
        decreases v.len() - i,
    {
        proof {
            assert(v.take(i + 1).drop_last() =~= v.take(i as int));
        }
        match total.checked_add(utxos[i].amount) {
            Some(t) => {
                total = t;
            },
            None => {
                proof {
                    crate::utxo::lemma_sum_utxos_prefix_monotone(v, i + 1, v.len() as int);
                    assert(v.take(v.len() as int) =~= v);
                }
                return None;
            },
        }
        i = i + 1;
    }
    proof {
        assert(v.take(v.len() as int) =~= v);
    }
    Some(total)
}

/// The inputs that spend the given unspent outputs.
fn inputs_for(utxos: &Vec<UnspentTransaction>) -> (r: Vec<TransactionIn>)
    ensures
        r@ == spec_inputs_for(utxos_view(utxos@)),
{
    let ghost v = utxos_view(utxos@);
    let mut r: Vec<TransactionIn> = Vec::new();
    let mut i: usize = 0;
    while i < utxos.len()
        invariant
            0 <= i <= v.len(),
            v == utxos_view(utxos@),
            r@ == spec_inputs_for(v.take(i as int)),
        decreases v.len() - i,
    {
        r.push(utxos[i].to_txin());
        proof {
            assert(r@ =~= spec_inputs_for(v.take(i + 1)));
        }
        i = i + 1;
    }
    proof {
        assert(v.take(v.len() as int) =~= v);
    }
    r
}

/// Where the shortest prefix is not empty, its amounts reach the target.
pub proof fn lemma_flex_reaches(target: u64, utxos: Seq<UtxoView>)
    ensures
        spec_flex(target, utxos).len() > 0 ==> spec_sum_utxos(spec_flex(target, utxos)) >= target,
{
    if exists|k: int| 0 <= k <= utxos.len() && spec_sum_utxos(#[trigger] utxos.take(k)) >= target {
        let k0 = choose|k: int| 0 <= k <= utxos.len() && spec_sum_utxos(#[trigger] utxos.take(k)) >= target;
        lemma_shortest_prefix_exists(target, utxos, k0);
    }
}

/// The shortest prefix that reaches a target holds something exactly where
/// the target is positive and all the outputs together reach it.
pub proof fn lemma_flex_nonempty(target: u64, utxos: Seq<UtxoView>)
    ensures
        (spec_flex(target, utxos).len() > 0) == (target > 0 && spec_sum_utxos(utxos) >= target),
{
    assert(utxos.take(utxos.len() as int) =~= utxos);
    assert(utxos.take(0) =~= Seq::<UtxoView>::empty());
    if exists|k: int| 0 <= k <= utxos.len() && spec_sum_utxos(#[trigger] utxos.take(k)) >= target {
        let k0 = choose|k: int| 0 <= k <= utxos.len() && spec_sum_utxos(#[trigger] utxos.take(k)) >= target;
        lemma_shortest_prefix_exists(target, utxos, k0);
        let k = choose|k: int|
            0 <= k <= utxos.len() && spec_sum_utxos(#[trigger] utxos.take(k)) >= target && forall|j: int|
                0 <= j < k ==> spec_sum_utxos(#[trigger] utxos.take(j)) < target;
        crate::utxo::lemma_sum_utxos_prefix_monotone(utxos, k, utxos.len() as int);
        if target > 0 {
            assert(k > 0);
        } else {
            if k > 0 {
                assert(spec_sum_utxos(utxos.take(0)) < target);
            }
        }
    } else {
        assert(!(spec_sum_utxos(utxos.take(utxos.len() as int)) >= target));
    }
}

/// Where some prefix reaches the target, a shortest one does.
proof fn lemma_shortest_prefix_exists(target: u64, utxos: Seq<UtxoView>, k0: int)
    requires
        0 <= k0 <= utxos.len(),
        spec_sum_utxos(utxos.take(k0)) >= target,
    ensures
        exists|k: int|
            0 <= k <= utxos.len() && spec_sum_utxos(#[trigger] utxos.take(k)) >= target && forall|j: int|
                0 <= j < k ==> spec_sum_utxos(#[trigger] utxos.take(j)) < target,
    decreases k0,
{
    if exists|j: int| 0 <= j < k0 && spec_sum_utxos(#[trigger] utxos.take(j)) >= target {
        let j = choose|j: int| 0 <= j < k0 && spec_sum_utxos(#[trigger] utxos.take(j)) >= target;
        lemma_shortest_prefix_exists(target, utxos, j);
    } else {
        assert(forall|j: int| 0 <= j < k0 ==> spec_sum_utxos(#[trigger] utxos.take(j)) < target);
    }
}

impl Chain {
    /// The content of the next block: the issuer's reward first, then the
    /// given transactions, on top of the tip.
    pub fn generate_next_block_data(
        &self,
        issuer: &Address,
        beacon: Beacon,
        transactions_without_coinbase: Vec<Transaction>,
        next_timestamp: i64,
    ) -> (r: BlockDataOwned)
        requires
            spec_latest_block(self@).index < u64::MAX,
        ensures
            r@ == spec_next_block_data(
                self@,
                issuer@,
                beacon@,
                txs_view(transactions_without_coinbase@),
                next_timestamp,
            ),
    {
        let previous_block = self.get_latest_block();
        let next_index: u64 = previous_block.index + 1;
        let mut transactions: Vec<Transaction> = Vec::new();
        transactions.push(coinbase_transaction(issuer, next_index));
        let ghost first = transactions@;
        let mut rest = transactions_without_coinbase;
        let ghost rest_view = txs_view(rest@);
        transactions.append(&mut rest);
        proof {
            assert(txs_view(transactions@) =~= seq![spec_coinbase_tx(issuer@, next_index)] + rest_view);
        }
        let data = BlockData::new(
            next_index,
            next_timestamp,
            transactions.as_slice(),
            &beacon,
            issuer,
            previous_block.hash,
        );
        data.to_owned()
    }

    /// Seals the given content with the delay proof, signed with `sk`;
    /// `None` where the key cannot sign.
    pub fn generate_next_block(&self, sk: &SK, vdf_solution: Vec<u8>, block_data: BlockDataOwned) -> (r:
        Option<Block>)
        ensures
            ({
                let message = spec_block_message(block_data@, vdf_solution@);
                match r {
                    Some(b) => {
                        &&& spec_sign(sk@, message) == Some(b.signature@)
                        &&& b@ == spec_sealed_block(block_data@, vdf_solution@, b.signature@, b.hash)
                        &&& b.hash@ == spec_block_hash(block_data@, vdf_solution@, b.signature@)
                    },
                    None => spec_sign(sk@, message) is None,
                }
            }),
            spec_key_signs(sk@) ==> r is Some,
    {
        Block::new_with_creating_signature(&block_data.as_borrowed(), vdf_solution, sk)
    }

    /// A signed payment of `send_amount` from `sender` to `recipient` with
    /// the given fee. It spends the sender's unspent outputs that the pending
    /// transactions leave, from the first until they cover the amount and
    /// the fee, and sends the change back. `None` where they fall short, or
    /// where the key cannot sign.
    pub fn generate_transaction(
        &self,
        sender: &Address,
        recipient: &Address,
        send_amount: u64,
        secret_key: &SK,
        used_transactions: &[Transaction],
        fee: u64,
    ) -> (r: Option<Transaction>)
        requires
            spec_ids_fit(self@),
            send_amount + fee <= u64::MAX,
            spec_sum_utxos(
                spec_payment_inputs(self@, sender@, txs_view(used_transactions@), (send_amount + fee) as u64),
            ) <= u64::MAX,
        ensures
            ({
                let inputs = spec_payment_inputs(
                    self@,
                    sender@,
                    txs_view(used_transactions@),
                    (send_amount + fee) as u64,
                );
                let outs = spec_payment_outs(sender@, recipient@, send_amount, fee, spec_sum_utxos(inputs));
                let message = enc_tx_body(sender@, outs, spec_inputs_for(inputs), fee);
                &&& inputs.len() == 0 ==> r is None
                &&& inputs.len() > 0 ==> match r {
                    Some(tx) => {
                        &&& tx@ == (TxView {
                            sender: sender@,
                            out: outs,
                            tx_in: spec_inputs_for(inputs),
                            fee,
                            signature: tx@.signature,
                        })
                        &&& spec_sign(secret_key@, message) == Some(tx@.signature)
                        &&& spec_sum_utxos(inputs) >= send_amount + fee
                    },
                    None => spec_sign(secret_key@, message) is None,
                }
                &&& r matches Some(tx) ==> (spec_public_key_of(secret_key@) == Some(sender@) && (
                tx@.signature.len() <= 512 || spec_key_sound(secret_key@)) ==> spec_tx_signature_ok(tx@))
                &&& r matches Some(tx) ==> spec_total_amount(tx@) == spec_sum_utxos(inputs)
                &&& (inputs.len() > 0) == (send_amount + fee > 0 && spec_sum_utxos(
                    spec_spendable(self@, sender@, txs_view(used_transactions@)),
                ) >= send_amount + fee)
                &&& spec_key_signs(secret_key@) ==> (r is Some <==> inputs.len() > 0)
            }),
            match r {
                Some(tx) => spec_generated_tx(
                    self@,
                    sender@,
                    recipient@,
                    send_amount,
                    secret_key@,
                    txs_view(used_transactions@),
                    fee,
                ) == Some(tx@),
                None => spec_generated_tx(
                    self@,
                    sender@,
                    recipient@,
                    send_amount,
                    secret_key@,
                    txs_view(used_transactions@),
                    fee,
                ) is None,
            },
    {
        let amount = send_amount + fee;
        let use_unspent = self.payment_inputs(sender, used_transactions, amount);
        let ghost rem = spec_filter_out_ids(
            spec_filter_address(spec_chain_utxos(self@).0, sender@),
            spec_txs_ids(txs_view(used_transactions@)),
        );
        proof {
            reveal(spec_payment_inputs);
            reveal(spec_generated_tx);
            lemma_flex_nonempty(amount, rem);
        }
        if use_unspent.len() == 0 {
            return None;
        }
        proof {
            lemma_flex_reaches(amount, rem);
        }
        let total = sum_amounts(&use_unspent);
        let out = get_transaction_out(sender, recipient, send_amount, fee, total);
        let tx_in = inputs_for(&use_unspent);
        proof {
            lemma_payment_outs_sum(sender@, recipient@, send_amount, fee, total as int);
        }
        Transaction::new_with_creating_signature(sender, out, tx_in, fee, secret_key)
    }

    /// The outputs that a payment of `amount` from `sender` spends: the
    /// sender's unspent outputs that no pending transaction spends yet,
    /// taken from the first until they reach the amount; none where they
    /// fall short.
    pub fn payment_inputs(&self, sender: &Address, used_transactions: &[Transaction], amount: u64) -> (r:
        Vec<UnspentTransaction>)
        requires
            spec_ids_fit(self@),
        ensures
            utxos_view(r@) == spec_payment_inputs(self@, sender@, txs_view(used_transactions@), amount),
    {
        proof {
            reveal(spec_payment_inputs);
        }
        let filtered_unspent_transactions = self.filter_unspent_transactions_by_address(sender);
        let used_unspent_ids: Vec<u64> = transactions_to_unspent_ids(used_transactions);
        let remaining = remove_listed(filtered_unspent_transactions, &used_unspent_ids);
        flex_unspent_transactions(amount, remaining)
    }
}


/// Filtering by address keeps some of the outputs.
proof fn lemma_filter_address_sub(utxos: Seq<UtxoView>, address: Seq<char>)
    ensures
        forall|i: int|
            0 <= i < spec_filter_address(utxos, address).len() ==> utxos.contains(
                #[trigger] spec_filter_address(utxos, address)[i],
            ),
    decreases utxos.len(),
{
    if utxos.len() > 0 {
        let rest = utxos.drop_last();
        lemma_filter_address_sub(rest, address);
        let r = spec_filter_address(rest, address);
        let full = spec_filter_address(utxos, address);
        assert forall|i: int| 0 <= i < full.len() implies utxos.contains(#[trigger] full[i]) by {
            if i < r.len() {
                assert(full[i] == r[i]);
                let j = choose|j: int| 0 <= j < rest.len() && rest[j] == r[i];
                assert(utxos[j] == rest[j]);
            } else {
                assert(full[i] == utxos[utxos.len() - 1]);
            }
        }
    }
}

/// Filtering out listed ids keeps some of the outputs.
proof fn lemma_filter_out_ids_sub(utxos: Seq<UtxoView>, ids: Seq<u64>)
    ensures
        forall|i: int|
            0 <= i < spec_filter_out_ids(utxos, ids).len() ==> utxos.contains(
                #[trigger] spec_filter_out_ids(utxos, ids)[i],
            ),
    decreases utxos.len(),
{
    if utxos.len() > 0 {
        let rest = utxos.drop_last();
        lemma_filter_out_ids_sub(rest, ids);
        let r = spec_filter_out_ids(rest, ids);
        let full = spec_filter_out_ids(utxos, ids);
        assert forall|i: int| 0 <= i < full.len() implies utxos.contains(#[trigger] full[i]) by {
            if i < r.len() {
                assert(full[i] == r[i]);
                let j = choose|j: int| 0 <= j < rest.len() && rest[j] == r[i];
                assert(utxos[j] == rest[j]);
            } else {
                assert(full[i] == utxos[utxos.len() - 1]);
            }
        }
    }
}

/// Where ids are distinct, looking up the id of an output finds its amount.
proof fn lemma_find_amount_of_member(utxos: Seq<UtxoView>, u: UtxoView)
    requires
        ids_distinct(utxos),
        utxos.contains(u),
    ensures
        spec_find_amount(utxos, u.id) == Some(u.amount),
    decreases utxos.len(),
{
    let k = choose|k: int| 0 <= k < utxos.len() && utxos[k] == u;
    if utxos[0].id != u.id {
        let rest = utxos.drop_first();
        assert(k > 0);
        assert(rest[k - 1] == u);
        assert(ids_distinct(rest)) by {
            assert forall|i: int, j: int| 0 <= i < j < rest.len() implies rest[i].id != rest[j].id by {
                assert(rest[i] == utxos[i + 1]);
                assert(rest[j] == utxos[j + 1]);
            }
        }
        lemma_find_amount_of_member(rest, u);
    } else {
        if k > 0 {
            assert(utxos[0].id != utxos[k].id);
        }
    }
}

/// Spending outputs that the unspent outputs hold brings in their sum.
proof fn lemma_input_total_of_members(sel: Seq<UtxoView>, utxos: Seq<UtxoView>)
    requires
        ids_distinct(utxos),
        forall|i: int| 0 <= i < sel.len() ==> utxos.contains(#[trigger] sel[i]),
    ensures
        spec_input_total(spec_inputs_for(sel), utxos) == spec_sum_utxos(sel),
        forall|i: int|
            0 <= i < sel.len() ==> (#[trigger] spec_find_amount(utxos, spec_inputs_for(sel)[i].unspent_id)) is Some,
    decreases sel.len(),
{
    if sel.len() > 0 {
        let rest = sel.drop_last();
        assert forall|i: int| 0 <= i < rest.len() implies utxos.contains(#[trigger] rest[i]) by {
            assert(rest[i] == sel[i]);
        }
        lemma_input_total_of_members(rest, utxos);
        assert(spec_inputs_for(sel).drop_last() =~= spec_inputs_for(rest));
        assert(utxos.contains(sel[sel.len() - 1]));
        lemma_find_amount_of_member(utxos, sel.last());
        assert forall|i: int| 0 <= i < sel.len() implies (#[trigger] spec_find_amount(
            utxos,
            spec_inputs_for(sel)[i].unspent_id,
        )) is Some by {
            lemma_find_amount_of_member(utxos, sel[i]);
        }
    }
}

/// The shortest prefix that reaches a target is a prefix.
proof fn lemma_flex_prefix(target: u64, utxos: Seq<UtxoView>)
    ensures
        spec_flex(target, utxos).len() <= utxos.len(),
        forall|i: int| 0 <= i < spec_flex(target, utxos).len() ==> #[trigger] spec_flex(target, utxos)[i] == utxos[i],
{
    if exists|k: int| 0 <= k <= utxos.len() && spec_sum_utxos(#[trigger] utxos.take(k)) >= target {
        let k0 = choose|k: int| 0 <= k <= utxos.len() && spec_sum_utxos(#[trigger] utxos.take(k)) >= target;
        lemma_shortest_prefix_exists(target, utxos, k0);
    }
}

/// The outputs that a payment spends are among the given unspent outputs.
proof fn lemma_payment_inputs_held(utxos: Seq<UtxoView>, sender: Seq<char>, used: Seq<u64>, amount: u64)
    ensures
        forall|i: int|
            0 <= i < spec_flex(amount, spec_filter_out_ids(spec_filter_address(utxos, sender), used)).len()
                ==> utxos.contains(
                #[trigger] spec_flex(amount, spec_filter_out_ids(spec_filter_address(utxos, sender), used))[i],
            ),
{
    let mine = spec_filter_address(utxos, sender);
    let rem = spec_filter_out_ids(mine, used);
    let sel = spec_flex(amount, rem);
    lemma_filter_address_sub(utxos, sender);
    lemma_filter_out_ids_sub(mine, used);
    lemma_flex_prefix(amount, rem);
    assert forall|i: int| 0 <= i < sel.len() implies utxos.contains(#[trigger] sel[i]) by {
        assert(sel[i] == rem[i]);
        assert(mine.contains(rem[i]));
        let j = choose|j: int| 0 <= j < mine.len() && mine[j] == rem[i];
        assert(utxos.contains(mine[j]));
    }
}

/// A payment that the node makes is balanced over the chain: its inputs
/// name unspent outputs of the chain, and bring in exactly what its outputs
/// and fee pay out.
pub proof fn lemma_generated_tx_balanced(
    blocks: Seq<crate::block::BlockView>,
    sender: Seq<char>,
    recipient: Seq<char>,
    send_amount: u64,
    sk: Seq<char>,
    pending: Seq<TxView>,
    fee: u64,
)
    requires
        spec_ids_fit(blocks),
        send_amount + fee <= u64::MAX,
        spec_sum_utxos(spec_payment_inputs(blocks, sender, pending, (send_amount + fee) as u64))
            <= u64::MAX,
        spec_generated_tx(blocks, sender, recipient, send_amount, sk, pending, fee) is Some,
    ensures
        spec_input_total(
            spec_generated_tx(blocks, sender, recipient, send_amount, sk, pending, fee)->0.tx_in,
            spec_chain_utxos(blocks).0,
        ) == spec_total_amount(spec_generated_tx(blocks, sender, recipient, send_amount, sk, pending, fee)->0),
{
    reveal(spec_payment_inputs);
    reveal(spec_generated_tx);
    let utxos = spec_chain_utxos(blocks).0;
    let amount = (send_amount + fee) as u64;
    let used = spec_txs_ids(pending);
    let rem = spec_filter_out_ids(spec_filter_address(utxos, sender), used);
    let sel = spec_flex(amount, rem);
    assert(sel == spec_payment_inputs(blocks, sender, pending, amount));
    let t = spec_generated_tx(blocks, sender, recipient, send_amount, sk, pending, fee)->0;
    let outs = spec_payment_outs(sender, recipient, send_amount, fee, spec_sum_utxos(sel));
    assert(sel.len() > 0 && t.out == outs && t.tx_in == spec_inputs_for(sel) && t.sender == sender
        && t.fee == fee);
    assert(spec_sum_utxos(sel) >= amount) by {
        lemma_flex_reaches(amount, rem);
    }
    assert(spec_input_total(t.tx_in, utxos) == spec_sum_utxos(sel)) by {
        crate::utxo_state::lemma_chain_utxo_ids(blocks);
        lemma_payment_inputs_held(utxos, sender, used, amount);
        lemma_input_total_of_members(sel, utxos);
    }
    lemma_payment_outs_sum(sender, recipient, send_amount, fee, spec_sum_utxos(sel));
}

/// Every input of a payment that the node makes names an unspent output of
/// the chain.
pub proof fn lemma_generated_tx_inputs_exist(
    blocks: Seq<crate::block::BlockView>,
    sender: Seq<char>,
    recipient: Seq<char>,
    send_amount: u64,
    sk: Seq<char>,
    pending: Seq<TxView>,
    fee: u64,
)
    requires
        spec_ids_fit(blocks),
        spec_generated_tx(blocks, sender, recipient, send_amount, sk, pending, fee) is Some,
    ensures
        forall|i: int|
            0 <= i < spec_generated_tx(blocks, sender, recipient, send_amount, sk, pending, fee)->0.tx_in.len()
                ==> (#[trigger] spec_find_amount(
                spec_chain_utxos(blocks).0,
                spec_generated_tx(blocks, sender, recipient, send_amount, sk, pending, fee)->0.tx_in[i].unspent_id,
            )) is Some,
{
    reveal(spec_payment_inputs);
    reveal(spec_generated_tx);
    let utxos = spec_chain_utxos(blocks).0;
    let amount = (send_amount + fee) as u64;
    let used = spec_txs_ids(pending);
    let rem = spec_filter_out_ids(spec_filter_address(utxos, sender), used);
    let sel = spec_flex(amount, rem);
    assert(sel == spec_payment_inputs(blocks, sender, pending, amount));
    let t = spec_generated_tx(blocks, sender, recipient, send_amount, sk, pending, fee)->0;
    assert(t.tx_in == spec_inputs_for(sel));
    crate::utxo_state::lemma_chain_utxo_ids(blocks);
    lemma_payment_inputs_held(utxos, sender, used, amount);
    lemma_input_total_of_members(sel, utxos);
}

/// The outputs of a payment pay out what its inputs bring in, less the fee.
proof fn lemma_payment_outs_sum(sender: Seq<char>, recipient: Seq<char>, send_amount: u64, fee: u64, total: int)
    requires
        send_amount + fee <= total <= u64::MAX,
    ensures
        spec_sum_out(spec_payment_outs(sender, recipient, send_amount, fee, total)) == total - fee,
{
    let outs = spec_payment_outs(sender, recipient, send_amount, fee, total);
    assert(outs.drop_last() =~= seq![outs[0]]);
    assert(outs.drop_last().drop_last() =~= Seq::<TxOutView>::empty());
    assert(spec_sum_out(outs.drop_last().drop_last()) == 0);
    assert(spec_sum_out(outs.drop_last()) == send_amount);
    assert(outs.last().amount == total - send_amount - fee);
}


/// Adding an output whose id differs from every one of a list to some
/// outputs of that list keeps their ids distinct.
proof fn lemma_push_distinct(r: Seq<UtxoView>, from: Seq<UtxoView>, x: UtxoView)
    requires
        ids_distinct(r),
        forall|i: int| 0 <= i < r.len() ==> from.contains(#[trigger] r[i]),
        forall|j: int| 0 <= j < from.len() ==> (#[trigger] from[j]).id != x.id,
    ensures
        ids_distinct(r.push(x)),
{
    let r2 = r.push(x);
    assert forall|i: int, j: int| 0 <= i < j < r2.len() implies r2[i].id != r2[j].id by {
        assert(r2[i] == r[i]);
        if j == r.len() {
            assert(from.contains(r[i]));
            let k = choose|k: int| 0 <= k < from.len() && from[k] == r[i];
            assert(from[k].id != x.id);
        } else {
            assert(r2[j] == r[j]);
        }
    }
}

proof fn lemma_drop_last_distinct(s: Seq<UtxoView>)
    requires
        s.len() > 0,
        ids_distinct(s),
    ensures
        ids_distinct(s.drop_last()),
        forall|j: int| 0 <= j < s.drop_last().len() ==> (#[trigger] s.drop_last()[j]).id != s.last().id,
{
    let rest = s.drop_last();
    assert forall|j: int| 0 <= j < rest.len() implies (#[trigger] rest[j]).id != s.last().id by {
        assert(rest[j] == s[j]);
    }
    assert forall|i: int, j: int| 0 <= i < j < rest.len() implies rest[i].id != rest[j].id by {
        assert(rest[i] == s[i]);
        assert(rest[j] == s[j]);
    }
}

/// Filtering by address keeps ids distinct.
proof fn lemma_filter_address_distinct(utxos: Seq<UtxoView>, address: Seq<char>)
    requires
        ids_distinct(utxos),
    ensures
        ids_distinct(spec_filter_address(utxos, address)),
    decreases utxos.len(),
{
    if utxos.len() > 0 {
        let rest = utxos.drop_last();
        lemma_drop_last_distinct(utxos);
        lemma_filter_address_distinct(rest, address);
        lemma_filter_address_sub(rest, address);
        if utxos.last().address == address {
            lemma_push_distinct(spec_filter_address(rest, address), rest, utxos.last());
        }
    }
}

/// Filtering out listed ids keeps ids distinct, and keeps no listed id.
proof fn lemma_filter_out_ids_distinct(utxos: Seq<UtxoView>, ids: Seq<u64>)
    ensures
        ids_distinct(utxos) ==> ids_distinct(spec_filter_out_ids(utxos, ids)),
        forall|i: int|
            0 <= i < spec_filter_out_ids(utxos, ids).len() ==> !ids.contains(
                (#[trigger] spec_filter_out_ids(utxos, ids)[i]).id,
            ),
    decreases utxos.len(),
{
    if utxos.len() > 0 {
        let rest = utxos.drop_last();
        lemma_filter_out_ids_distinct(rest, ids);
        lemma_filter_out_ids_sub(rest, ids);
        let r = spec_filter_out_ids(rest, ids);
        if !ids.contains(utxos.last().id) {
            let r2 = r.push(utxos.last());
            assert forall|i: int| 0 <= i < r2.len() implies !ids.contains((#[trigger] r2[i]).id) by {
                if i < r.len() {
                    assert(r2[i] == r[i]);
                }
            }
            if ids_distinct(utxos) {
                lemma_drop_last_distinct(utxos);
                lemma_push_distinct(r, rest, utxos.last());
            }
        } else if ids_distinct(utxos) {
            lemma_drop_last_distinct(utxos);
        }
    }
}

/// Filtering by listed ids keeps distinct ids distinct, keeps only outputs
/// with listed ids, and keeps every such output.
proof fn lemma_filter_ids_props(utxos: Seq<UtxoView>, ids: Seq<u64>)
    ensures
        ids_distinct(utxos) ==> ids_distinct(spec_filter_ids(utxos, ids)),
        forall|i: int|
            0 <= i < spec_filter_ids(utxos, ids).len() ==> ids.contains(
                (#[trigger] spec_filter_ids(utxos, ids)[i]).id,
            ) && utxos.contains(spec_filter_ids(utxos, ids)[i]),
        forall|u: UtxoView| utxos.contains(u) && ids.contains(u.id) ==> #[trigger] spec_filter_ids(
            utxos,
            ids,
        ).contains(u),
    decreases utxos.len(),
{
    if utxos.len() > 0 {
        let rest = utxos.drop_last();
        let last = utxos.last();
        lemma_filter_ids_props(rest, ids);
        let r = spec_filter_ids(rest, ids);
        let full = spec_filter_ids(utxos, ids);
        assert forall|i: int| 0 <= i < full.len() implies ids.contains((#[trigger] full[i]).id) && utxos.contains(
            full[i],
        ) by {
            if i < r.len() {
                assert(full[i] == r[i]);
                let k = choose|k: int| 0 <= k < rest.len() && rest[k] == r[i];
                assert(utxos[k] == rest[k]);
            } else {
                assert(full[i] == last);
                assert(utxos[utxos.len() - 1] == last);
            }
        }
        assert forall|u: UtxoView| utxos.contains(u) && ids.contains(u.id) implies #[trigger] full.contains(u) by {
            let k = choose|k: int| 0 <= k < utxos.len() && utxos[k] == u;
            if k < utxos.len() - 1 {
                assert(rest[k] == u);
                assert(r.contains(u));
                let m = choose|m: int| 0 <= m < r.len() && r[m] == u;
                if ids.contains(last.id) {
                    assert(full[m] == u);
                } else {
                    assert(full == r);
                }
            } else {
                assert(full[full.len() - 1] == u);
            }
        }
        if ids_distinct(utxos) {
            lemma_drop_last_distinct(utxos);
            if ids.contains(last.id) {
                assert forall|i: int| 0 <= i < r.len() implies rest.contains(#[trigger] r[i]) by {
                }
                lemma_push_distinct(r, rest, last);
            }
        }
    }
}

/// The ids of some outputs.
pub open spec fn spec_ids_of(s: Seq<UtxoView>) -> Seq<u64> {
    s.map_values(|u: UtxoView| u.id)
}

/// Where the ids of the unspent outputs are distinct, filtering them by the
/// ids of some of them, no two alike, gives as many as there are ids.
proof fn lemma_filter_ids_count(utxos: Seq<UtxoView>, sel: Seq<UtxoView>)
    requires
        ids_distinct(utxos),
        ids_distinct(sel),
        forall|i: int| 0 <= i < sel.len() ==> utxos.contains(#[trigger] sel[i]),
    ensures
        spec_filter_ids(utxos, spec_ids_of(sel)).len() == sel.len(),
{
    let l = spec_ids_of(sel);
    let f = spec_filter_ids(utxos, l);
    lemma_filter_ids_props(utxos, l);
    let idf = spec_ids_of(f);
    assert(idf.no_duplicates()) by {
        assert forall|i: int, j: int| 0 <= i < idf.len() && 0 <= j < idf.len() && i != j implies idf[i] != idf[j] by {
            if i < j {
                assert(f[i].id != f[j].id);
            } else {
                assert(f[j].id != f[i].id);
            }
        }
    }
    assert(l.no_duplicates()) by {
        assert forall|i: int, j: int| 0 <= i < l.len() && 0 <= j < l.len() && i != j implies l[i] != l[j] by {
            if i < j {
                assert(sel[i].id != sel[j].id);
            } else {
                assert(sel[j].id != sel[i].id);
            }
        }
    }
    assert(idf.to_set() =~= l.to_set()) by {
        assert forall|x: u64| idf.to_set().contains(x) implies l.to_set().contains(x) by {
            let i = choose|i: int| 0 <= i < idf.len() && idf[i] == x;
            assert(l.contains(f[i].id));
        }
        assert forall|x: u64| l.to_set().contains(x) implies idf.to_set().contains(x) by {
            let k = choose|k: int| 0 <= k < l.len() && l[k] == x;
            assert(utxos.contains(sel[k]));
            assert(l.contains(sel[k].id));
            assert(f.contains(sel[k]));
            let m = choose|m: int| 0 <= m < f.len() && f[m] == sel[k];
            assert(idf[m] == x);
        }
    }
    idf.unique_seq_to_set();
    l.unique_seq_to_set();
}


/// The outputs that a payment spends carry distinct ids, each an unspent
/// output of the chain that no pending transaction spends.
proof fn lemma_payment_inputs_fresh(
    blocks: Seq<crate::block::BlockView>,
    sender: Seq<char>,
    pending: Seq<TxView>,
    amount: u64,
)
    requires
        spec_ids_fit(blocks),
    ensures
        ids_distinct(spec_payment_inputs(blocks, sender, pending, amount)),
        forall|i: int|
            0 <= i < spec_payment_inputs(blocks, sender, pending, amount).len() ==> !spec_txs_ids(
                pending,
            ).contains((#[trigger] spec_payment_inputs(blocks, sender, pending, amount)[i]).id),
{
    reveal(spec_payment_inputs);
    let utxos = spec_chain_utxos(blocks).0;
    let mine = spec_filter_address(utxos, sender);
    let rem = spec_filter_out_ids(mine, spec_txs_ids(pending));
    let sel = spec_flex(amount, rem);
    crate::utxo_state::lemma_chain_utxo_ids(blocks);
    lemma_filter_address_distinct(utxos, sender);
    lemma_filter_out_ids_distinct(mine, spec_txs_ids(pending));
    lemma_flex_prefix(amount, rem);
    assert forall|i: int, j: int| 0 <= i < j < sel.len() implies sel[i].id != sel[j].id by {
        assert(sel[i] == rem[i]);
        assert(sel[j] == rem[j]);
    }
    assert forall|i: int| 0 <= i < sel.len() implies !spec_txs_ids(pending).contains((#[trigger] sel[i]).id) by {
        assert(sel[i] == rem[i]);
    }
}

/// The node's own payment, signed with the key of the sending address, is
/// taken into the pool: where the key is sound, the recipient's address
/// well formed and something is paid, the payment that
/// `generate_transaction` makes is valid over the chain, names outputs that
/// are there, no two alike, and spends nothing a pending transaction
/// spends.
pub proof fn lemma_own_payment_accepted(
    blocks: Seq<crate::block::BlockView>,
    sender: Seq<char>,
    recipient: Seq<char>,
    send_amount: u64,
    sk: Seq<char>,
    pending: Seq<TxView>,
    fee: u64,
)
    requires
        spec_ids_fit(blocks),
        0 < send_amount + fee <= u64::MAX,
        spec_sum_utxos(spec_payment_inputs(blocks, sender, pending, (send_amount + fee) as u64))
            <= u64::MAX,
        spec_public_key_of(sk) == Some(sender),
        spec_key_sound(sk),
        spec_is_valid_address(recipient),
        spec_generated_tx(blocks, sender, recipient, send_amount, sk, pending, fee) is Some,
    ensures
        spec_pool_accepts(
            blocks,
            pending,
            spec_generated_tx(blocks, sender, recipient, send_amount, sk, pending, fee)->0,
        ),
{
    reveal(spec_pool_accepts);
    reveal(spec_generated_tx);
    let utxos = spec_chain_utxos(blocks).0;
    let amount = (send_amount + fee) as u64;
    let sel = spec_payment_inputs(blocks, sender, pending, amount);
    let t = spec_generated_tx(blocks, sender, recipient, send_amount, sk, pending, fee)->0;
    let outs = spec_payment_outs(sender, recipient, send_amount, fee, spec_sum_utxos(sel));
    assert(t.out == outs && t.tx_in == spec_inputs_for(sel) && t.sender == sender && t.fee == fee
        && sel.len() > 0);
    lemma_generated_tx_balanced(blocks, sender, recipient, send_amount, sk, pending, fee);
    lemma_generated_tx_inputs_exist(blocks, sender, recipient, send_amount, sk, pending, fee);
    assert(spec_tx_signature_ok(t)) by {
        assert(spec_sign(sk, spec_tx_message(t)) == Some(t.signature));
    }
    assert(spec_total_amount(t) > 0) by {
        reveal(spec_payment_inputs);
        lemma_flex_reaches(amount, spec_spendable(blocks, sender, pending));
        lemma_payment_outs_sum(sender, recipient, send_amount, fee, spec_sum_utxos(sel));
    }
    assert forall|i: int| 0 <= i < t.out.len() implies spec_is_valid_address(#[trigger] t.out[i].address) by {
        assert(outs[0].address == recipient);
        assert(outs[1].address == sender);
    }
    assert(spec_tx_ids(t) =~= spec_ids_of(sel));
    assert(spec_filter_ids(utxos, spec_tx_ids(t)).len() == spec_tx_ids(t).len()) by {
        crate::utxo_state::lemma_chain_utxo_ids(blocks);
        lemma_payment_inputs_fresh(blocks, sender, pending, amount);
        reveal(spec_payment_inputs);
        lemma_payment_inputs_held(utxos, sender, spec_txs_ids(pending), amount);
        lemma_filter_ids_count(utxos, sel);
    }
    assert forall|k: int| 0 <= k < t.tx_in.len() implies !spec_txs_ids(pending).contains(
        #[trigger] t.tx_in[k].unspent_id,
    ) by {
        lemma_payment_inputs_fresh(blocks, sender, pending, amount);
        assert(t.tx_in[k].unspent_id == sel[k].id);
    }
}

} // verus!
