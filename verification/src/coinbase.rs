use vstd::prelude::*;

use crate::key::{Address, SignatureWrapper, PK};
use crate::transaction::{Transaction, TxView};
use crate::utxo::{TransactionIn, TransactionOut, TxOutView};

verus! {

/// What a block pays its issuer, whatever its height.
pub const COINBASE_AMOUNT: u64 = 50;

/// The text of the address that coinbase transactions come from.
pub const COINBASE_SENDER: &'static str = "coinbase";

/// The reward transaction that opens a block: from the coinbase address, no
/// inputs, one output of the reward to the miner, no fee and no signature.
pub open spec fn spec_coinbase_tx(miner: Seq<char>, block_height: u64) -> TxView {
    TxView {
        sender: COINBASE_SENDER@,
        out: seq![TxOutView { address: miner, amount: COINBASE_AMOUNT }],
        tx_in: Seq::empty(),
        fee: 0,
        signature: Seq::empty(),
    }
}

/// The address that coinbase transactions come from.
pub fn coinbase_address() -> (r: Address)
    ensures
        r@ == COINBASE_SENDER@,
{
    PK { der: COINBASE_SENDER.to_string() }
}

/// The reward for the block at this height.
pub fn coinbase_amount(block_height: u64) -> (r: u64)
    ensures
        r == COINBASE_AMOUNT,
{
    COINBASE_AMOUNT
}

/// The reward transaction for the block at this height.
pub fn coinbase_transaction(miner: &Address, block_height: u64) -> (r: Transaction)
    ensures
        r@ == spec_coinbase_tx(miner@, block_height),
{
    let mut out: Vec<TransactionOut> = Vec::new();
    out.push(TransactionOut { address: miner.clone(), amount: coinbase_amount(block_height) });
    let tx_in: Vec<TransactionIn> = Vec::new();
    let r = Transaction {
        sender: coinbase_address(),
        out,
        tx_in,
        fee: 0,
        signature: SignatureWrapper::default(),
    };
    proof {
        assert(r@.out =~= seq![TxOutView { address: miner@, amount: COINBASE_AMOUNT }]);
        assert(r@.tx_in =~= Seq::<TransactionIn>::empty());
    }
    r
}

} // verus!
