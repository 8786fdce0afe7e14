use vstd::prelude::*;

use crate::key::Address;

verus! {

/// A reference to the unspent output that a transaction spends.
#[derive(Debug, Clone, Copy, PartialEq, Eq, Structural)]
pub struct TransactionIn {
    pub unspent_id: u64,
}

/// An amount paid to an address.
#[derive(Debug, PartialEq, Eq)]
pub struct TransactionOut {
    pub address: Address,
    pub amount: u64,
}

/// What a transaction output is, as a mathematical value.
pub struct TxOutView {
    pub address: Seq<char>,
    pub amount: u64,
}

impl View for TransactionOut {
    type V = TxOutView;

    open spec fn view(&self) -> TxOutView {
        TxOutView { address: self.address@, amount: self.amount }
    }
}

impl Clone for TransactionOut {
    fn clone(&self) -> (r: Self)
        ensures
            r@ == self@,
    {
        TransactionOut { address: self.address.clone(), amount: self.amount }
    }
}

/// An output that no transaction has spent yet, under the id it was given.
#[derive(Debug, PartialEq, Eq)]
pub struct UnspentTransaction {
    pub id: u64,
    pub address: Address,
    pub amount: u64,
}

/// What an unspent output is, as a mathematical value.
pub struct UtxoView {
    pub id: u64,
    pub address: Seq<char>,
    pub amount: u64,
}

impl View for UnspentTransaction {
    type V = UtxoView;

    open spec fn view(&self) -> UtxoView {
        UtxoView { id: self.id, address: self.address@, amount: self.amount }
    }
}

impl Clone for UnspentTransaction {
    fn clone(&self) -> (r: Self)
        ensures
            r@ == self@,
    {
        UnspentTransaction { id: self.id, address: self.address.clone(), amount: self.amount }
    }
}

/// The views of a sequence of outputs.
pub open spec fn outs_view(s: Seq<TransactionOut>) -> Seq<TxOutView> {
    s.map_values(|o: TransactionOut| o@)
}

/// The views of a sequence of unspent outputs.
pub open spec fn utxos_view(s: Seq<UnspentTransaction>) -> Seq<UtxoView> {
    s.map_values(|u: UnspentTransaction| u@)
}

/// Copies a list of outputs.
pub fn clone_outs(v: &Vec<TransactionOut>) -> (r: Vec<TransactionOut>)
    ensures
        outs_view(r@) == outs_view(v@),
{
    let r = v.clone();
    proof {
        assert(outs_view(r@) =~= outs_view(v@));
    }
    r
}

/// Copies a list of unspent outputs.
pub fn clone_utxos(v: &Vec<UnspentTransaction>) -> (r: Vec<UnspentTransaction>)
    ensures
        utxos_view(r@) == utxos_view(v@),
{
    let r = v.clone();
    proof {
        assert(utxos_view(r@) =~= utxos_view(v@));
    }
    r
}


/// The amount of the first unspent output with the given id, if any.
pub open spec fn spec_find_amount(utxos: Seq<UtxoView>, id: u64) -> Option<u64>
    decreases utxos.len(),
{
    if utxos.len() == 0 {
        None
    } else if utxos[0].id == id {
        Some(utxos[0].amount)
    } else {
        spec_find_amount(utxos.drop_first(), id)
    }
}

/// The sum of the amounts of some unspent outputs.
pub open spec fn spec_sum_utxos(s: Seq<UtxoView>) -> int
    decreases s.len(),
{
    if s.len() == 0 {
        0
    } else {
        spec_sum_utxos(s.drop_last()) + s.last().amount
    }
}

/// The shortest prefix of `utxos` whose amounts reach `target`, or nothing
/// where all of them together fall short.
pub open spec fn spec_flex(target: u64, utxos: Seq<UtxoView>) -> Seq<UtxoView> {
    if exists|k: int| 0 <= k <= utxos.len() && spec_sum_utxos(#[trigger] utxos.take(k)) >= target {
        let k = choose|k: int|
            0 <= k <= utxos.len() && spec_sum_utxos(#[trigger] utxos.take(k)) >= target && forall|
                j: int,
            |
                0 <= j < k ==> spec_sum_utxos(#[trigger] utxos.take(j)) < target;
        utxos.take(k)
    } else {
        Seq::empty()
    }
}

pub proof fn lemma_sum_utxos_nonneg(s: Seq<UtxoView>)
    ensures
        spec_sum_utxos(s) >= 0,
    decreases s.len(),
{
    if s.len() > 0 {
        lemma_sum_utxos_nonneg(s.drop_last());
    }
}

/// The sums of the prefixes of a list of unspent outputs never decrease.
pub proof fn lemma_sum_utxos_prefix_monotone(s: Seq<UtxoView>, j: int, k: int)
    requires
        0 <= j <= k <= s.len(),
    ensures
        spec_sum_utxos(s.take(j)) <= spec_sum_utxos(s.take(k)),
    decreases k - j,
{
    if j < k {
        lemma_sum_utxos_prefix_monotone(s, j, k - 1);
        assert(s.take(k).drop_last() =~= s.take(k - 1));
    }
}

impl TransactionOut {
    /// The unspent output that this output becomes under the given id, and
    /// the next id.
    pub fn to_unspent(&self, id: u64) -> (r: (UnspentTransaction, u64))
        requires
            id < u64::MAX,
        ensures
            r.0@ == (UtxoView { id, address: self.address@, amount: self.amount }),
            r.1 == id + 1,
    {
        (UnspentTransaction { id, address: self.address.clone(), amount: self.amount }, id + 1)
    }
}

impl TransactionIn {
    /// The amount of the unspent output this input refers to, if it is
    /// there.
    pub fn get_amount(&self, unspent_transactions: &[UnspentTransaction]) -> (r: Option<u64>)
        ensures
            r == spec_find_amount(utxos_view(unspent_transactions@), self.unspent_id),
    {
        let ghost v = utxos_view(unspent_transactions@);
        let mut i: usize = 0;
        proof {
            assert(v.skip(0) =~= v);
        }
        while i < unspent_transactions.len()
            invariant
                v == utxos_view(unspent_transactions@),
                0 <= i <= v.len(),
                spec_find_amount(v, self.unspent_id) == spec_find_amount(
                    v.skip(i as int),
                    self.unspent_id,
                ),
            decreases v.len() - i,
        {
            proof {
                assert(v.skip(i as int).drop_first() =~= v.skip(i + 1));
            }
            if unspent_transactions[i].id == self.unspent_id {
                return Some(unspent_transactions[i].amount);
            }
            i = i + 1;
        }
        None
    }
}

impl UnspentTransaction {
    /// The input that spends this output.
    pub fn to_txin(&self) -> (r: TransactionIn)
        ensures
            r.unspent_id == self.id,
    {
        TransactionIn { unspent_id: self.id }
    }
}

/// The shortest prefix of the unspent outputs whose amounts reach `amount`;
/// empty where all of them together fall short.
pub fn flex_unspent_transactions(amount: u64, unspent_transactions: Vec<UnspentTransaction>) -> (r:
    Vec<UnspentTransaction>)
    ensures
        utxos_view(r@) == spec_flex(amount, utxos_view(unspent_transactions@)),
{
    let ghost v = utxos_view(unspent_transactions@);
    let mut result: Vec<UnspentTransaction> = Vec::new();
    let mut sum: u128 = 0;
    let mut i: usize = 0;
    while i < unspent_transactions.len()
        invariant
            v == utxos_view(unspent_transactions@),
            0 <= i <= v.len(),
            utxos_view(result@) == v.take(i as int),
            sum == spec_sum_utxos(v.take(i as int)),
            sum <= i * 0xffff_ffff_ffff_ffff,
            forall|j: int| 0 <= j < i ==> spec_sum_utxos(#[trigger] v.take(j)) < amount,
        decreases v.len() - i,
    {
        if sum >= amount as u128 {
            proof {
                assert(spec_sum_utxos(v.take(i as int)) >= amount);
                let k = choose|k: int|
                    0 <= k <= v.len() && spec_sum_utxos(#[trigger] v.take(k)) >= amount && forall|
                        j: int,
                    |
                        0 <= j < k ==> spec_sum_utxos(#[trigger] v.take(j)) < amount;
                assert(k == i) by {
                    if k < i {
                    } else if k > i {
                        assert(spec_sum_utxos(v.take(i as int)) < amount);
                    }
                }
            }
            return result;
        }
        proof {
            assert(v.take(i + 1).drop_last() =~= v.take(i as int));
            assert(i * 0xffff_ffff_ffff_ffff + 0xffff_ffff_ffff_ffff == (i + 1) * 0xffff_ffff_ffff_ffff)
                by (nonlinear_arith);
            assert((i + 1) * 0xffff_ffff_ffff_ffff <= 0xffff_ffff_ffff_ffff * 0xffff_ffff_ffff_ffff)
                by (nonlinear_arith)
                requires
                    i + 1 <= 0xffff_ffff_ffff_ffff,
            ;
        }
        sum = sum + unspent_transactions[i].amount as u128;
        result.push(unspent_transactions[i].clone());
        proof {
            assert(utxos_view(result@) =~= v.take(i + 1));
        }
        i = i + 1;
    }
    proof {
        assert(v.take(v.len() as int) =~= v);
    }
    if sum >= amount as u128 {
        proof {
            let k = choose|k: int|
                0 <= k <= v.len() && spec_sum_utxos(#[trigger] v.take(k)) >= amount && forall|j: int|
                    0 <= j < k ==> spec_sum_utxos(#[trigger] v.take(j)) < amount;
            assert(k == v.len()) by {
                if k < v.len() {
                }
            }
        }
        result
    } else {
        proof {
            assert forall|k: int| 0 <= k <= v.len() implies spec_sum_utxos(#[trigger] v.take(k))
                < amount by {
                lemma_sum_utxos_prefix_monotone(v, k, v.len() as int);
            }
        }
        Vec::new()
    }
}

/// The outputs of a payment: `send_amount` to the recipient and what is
/// left of `total` after it and the fee back to the sender.
pub fn get_transaction_out(
    sender: &Address,
    recipient: &Address,
    send_amount: u64,
    fee: u64,
    total: u64,
) -> (r: Vec<TransactionOut>)
    requires
        send_amount + fee <= total,
    ensures
        outs_view(r@) == seq![
            TxOutView { address: recipient@, amount: send_amount },
            TxOutView { address: sender@, amount: (total - send_amount - fee) as u64 },
        ],
{
    let mut r: Vec<TransactionOut> = Vec::new();
    r.push(TransactionOut { address: recipient.clone(), amount: send_amount });
    r.push(TransactionOut { address: sender.clone(), amount: total - send_amount - fee });
    proof {
        assert(outs_view(r@) =~= seq![
            TxOutView { address: recipient@, amount: send_amount },
            TxOutView { address: sender@, amount: (total - send_amount - fee) as u64 },
        ]);
    }
    r
}

} // verus!
