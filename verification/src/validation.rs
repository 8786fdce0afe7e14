use regex::Regex;
use vstd::prelude::*;

use crate::beacon::{is_valid_beacon, spec_is_valid_beacon, BeaconCache, BeaconKey};
use crate::block::{
    block_data_of, spec_block_hash, VDF_DIFFICULTY, is_genesis_block, spec_block_signature_ok, spec_block_vdf_ok, spec_is_genesis, Block, BlockView,
    MAX_TRANSACTIONS_PER_BLOCK,
};
use crate::chain::{Chain, CHECKPOINT_DEPTH};
use crate::coinbase::{coinbase_address, coinbase_amount, COINBASE_AMOUNT, COINBASE_SENDER};
use crate::hash::hashes_equal;
use crate::hex::is_hex_char;
use crate::key::Address;
use crate::transaction::{spec_sum_out, spec_total_amount, spec_tx_signature_ok, sum_out_amounts, Transaction, TxView};
use crate::utxo::{spec_find_amount, utxos_view, UnspentTransaction, UtxoView};
use crate::utxo_state::{input_total_wide, spec_chain_utxos, spec_ids_fit, spec_input_total};
use crate::chain::spec_block_depth;

verus! {

/// What a regular expression match of a whole text gives: `None` where the
/// pattern does not compile, else whether the text matches.
pub uninterp spec fn regex_match_result(pattern: Seq<char>, text: Seq<char>) -> Option<bool>;

/// The pattern of a non-empty run of hexadecimal digits filling the text.
pub open spec fn hex_run_pattern() -> Seq<char> {
    seq!['^', '[', 'a', '-', 'f', 'A', '-', 'F', '0', '-', '9', ']', '+', '$']
}

/// Compiles the pattern with `regex::Regex::new` and calls `is_match` on the
/// text. Claimed: the result is the named one; and for the pattern
/// `^[a-fA-F0-9]+$` it is what that pattern means by the crate's
/// documentation (without the multi-line flag, `^` and `$` anchor at the
/// ends of the text): the text is non-empty and all hexadecimal digits.
#[verifier::external_body]
fn regex_is_match(pattern: &str, text: &str) -> (r: Option<bool>)
    ensures
        r == regex_match_result(pattern@, text@),
        pattern@ == hex_run_pattern() ==> r == Some(
            text@.len() > 0 && forall|i: int| 0 <= i < text@.len() ==> is_hex_char(#[trigger] text@[i]),
        ),
{
    Regex::new(pattern).ok().map(|re| re.is_match(text))
}

/// A well-formed address: hexadecimal text of a DER sequence, so starting
/// with "30".
pub open spec fn spec_is_valid_address(a: Seq<char>) -> bool {
    &&& a.len() >= 2
    &&& a[0] == '3'
    &&& a[1] == '0'
    &&& forall|i: int| 0 <= i < a.len() ==> is_hex_char(#[trigger] a[i])
}

pub fn is_valid_address(address: &Address) -> (r: bool)
    ensures
        r == spec_is_valid_address(address@),
{
    broadcast use vstd::string::is_ascii_spec_bytes, vstd::utf8::is_ascii_chars_encode_utf8;

    let pattern = "^[a-fA-F0-9]+$";
    proof {
        reveal_strlit("^[a-fA-F0-9]+$");
        assert(pattern@ =~= hex_run_pattern());
    }
    let text = address.der.as_str();
    match regex_is_match(pattern, text) {
        Some(true) => {
            proof {
                assert forall|i: int| 0 <= i < text@.len() implies '\0' <= #[trigger] text@[i] <= '\u{7f}' by {
                    assert(is_hex_char(text@[i]));
                }
            }
            let ascii = text.is_ascii();
            let bytes = text.as_bytes();
            proof {
                assert(ascii);
                assert(bytes@.len() == text@.len());
                assert(forall|i: int| 0 <= i < bytes@.len() ==> bytes@[i] as char == #[trigger] text@[i]);
            }
            if bytes.len() >= 2 && bytes[0] == 51 && bytes[1] == 48 {
                proof {
                    assert(text@[0] == bytes@[0] as char);
                    assert(text@[1] == bytes@[1] as char);
                }
                true
            } else {
                proof {
                    if bytes@.len() >= 2 {
                        assert(text@[0] == bytes@[0] as char);
                        assert(text@[1] == bytes@[1] as char);
                    }
                }
                false
            }
        },
        _ => false,
    }
}

/// Whether an input refers to an output that is there.
pub open spec fn spec_inputs_exist(tx: TxView, utxos: Seq<UtxoView>) -> bool {
    forall|i: int| 0 <= i < tx.tx_in.len() ==> (#[trigger] spec_find_amount(utxos, tx.tx_in[i].unspent_id)) is Some
}

/// A valid transaction: signed by its sender, moving something, between
/// well-formed addresses, spending outputs that are there and bringing in
/// exactly what it pays out and the fee.
pub open spec fn spec_tx_valid(tx: TxView, utxos: Seq<UtxoView>) -> bool {
    &&& spec_tx_signature_ok(tx)
    &&& spec_total_amount(tx) > 0
    &&& spec_is_valid_address(tx.sender)
    &&& forall|i: int| 0 <= i < tx.out.len() ==> spec_is_valid_address(#[trigger] tx.out[i].address)
    &&& spec_input_total(tx.tx_in, utxos) == spec_total_amount(tx)
    &&& spec_inputs_exist(tx, utxos)
}

/// A valid reward transaction for the block at this height.
pub open spec fn spec_coinbase_valid(tx: TxView, block_height: u64) -> bool {
    &&& tx.sender == COINBASE_SENDER@
    &&& tx.tx_in.len() == 0
    &&& tx.out.len() == 1
    &&& tx.out[0].amount == COINBASE_AMOUNT
    &&& forall|i: int| 0 <= i < tx.out.len() ==> spec_is_valid_address(#[trigger] tx.out[i].address)
}

/// A valid block: not too many transactions, the first of them a valid
/// reward, the others valid against the given unspent outputs, a verifying
/// signature and a verifying delay proof.
pub open spec fn spec_block_valid(b: BlockView, utxos: Seq<UtxoView>, difficulty: u64) -> bool {
    &&& b.transactions.len() <= MAX_TRANSACTIONS_PER_BLOCK
    &&& b.transactions.len() > 0
    &&& spec_block_signature_ok(b)
    &&& spec_block_vdf_ok(b, difficulty)
    &&& spec_coinbase_valid(b.transactions[0], b.index)
    &&& forall|i: int| 1 <= i < b.transactions.len() ==> spec_tx_valid(#[trigger] b.transactions[i], utxos)
}

fn all_outs_valid(tx: &Transaction) -> (r: bool)
    ensures
        r == forall|i: int| 0 <= i < tx@.out.len() ==> spec_is_valid_address(#[trigger] tx@.out[i].address),
{
    let mut i: usize = 0;
    while i < tx.out.len()
        invariant
            0 <= i <= tx@.out.len(),
            forall|j: int| 0 <= j < i ==> spec_is_valid_address(#[trigger] tx@.out[j].address),
        decreases tx@.out.len() - i,
    {
        if !is_valid_address(&tx.out[i].address) {
            proof {
                assert(tx@.out[i as int] == tx.out@[i as int]@);
                assert(!spec_is_valid_address(tx@.out[i as int].address));
            }
            return false;
        }
        proof {
            assert(tx@.out[i as int] == tx.out@[i as int]@);
        }
        i = i + 1;
    }
    true
}

fn all_inputs_exist(tx: &Transaction, unspent_transactions: &[UnspentTransaction]) -> (r: bool)
    ensures
        r == spec_inputs_exist(tx@, utxos_view(unspent_transactions@)),
{
    let mut i: usize = 0;
    while i < tx.tx_in.len()
        invariant
            0 <= i <= tx@.tx_in.len(),
            forall|j: int|
                0 <= j < i ==> (#[trigger] spec_find_amount(
                    utxos_view(unspent_transactions@),
                    tx@.tx_in[j].unspent_id,
                )) is Some,
        decreases tx@.tx_in.len() - i,
    {
        if tx.tx_in[i].get_amount(unspent_transactions).is_none() {
            return false;
        }
        i = i + 1;
    }
    true
}

impl Transaction {
    /// Whether this transaction may enter a block over the given unspent
    /// outputs.
    pub fn is_valid(&self, unspent_transactions: &[UnspentTransaction]) -> (r: bool)
        ensures
            r == spec_tx_valid(self@, utxos_view(unspent_transactions@)),
    {
        let outs = sum_out_amounts(&self.out);
        let n = self.out.len();
        proof {
            assert(n <= 0xffff_ffff_ffff_ffff);
            assert(n * 0xffff_ffff_ffff_ffff <= 0xffff_ffff_ffff_ffff * 0xffff_ffff_ffff_ffff)
                by (nonlinear_arith)
                requires
                    n <= 0xffff_ffff_ffff_ffff,
            ;
        }
        let total = self.fee as u128 + outs;
        self.verify_signature() && total > 0 && is_valid_address(&self.sender) && all_outs_valid(self)
            && input_total_wide(self, unspent_transactions) == total && all_inputs_exist(
            self,
            unspent_transactions,
        )
    }
}

/// Whether a transaction is a valid reward for the block at this height.
pub fn is_valid_coinbase_transaction(transaction: &Transaction, block_height: u64) -> (r: bool)
    ensures
        r == spec_coinbase_valid(transaction@, block_height),
{
    let cb = coinbase_address();
    if transaction.sender.der != cb.der || transaction.tx_in.len() != 0 || transaction.out.len() != 1 {
        return false;
    }
    proof {
        assert(transaction@.out[0] == transaction.out@[0]@);
    }
    transaction.out[0].amount == coinbase_amount(block_height) && all_outs_valid(transaction)
}

impl Block {
    /// Whether this block is valid over the given unspent outputs, for the
    /// given delay.
    pub fn is_valid(&self, unspent_transactions: &[UnspentTransaction], difficulty: u64) -> (r: bool)
        ensures
            r == spec_block_valid(self@, utxos_view(unspent_transactions@), difficulty),
    {
        if self.transactions.len() > MAX_TRANSACTIONS_PER_BLOCK {
            return false;
        }
        if self.transactions.len() == 0 {
            return false;
        }
        if !(self.verify_signature() && self.verify_vdf_solution(difficulty)
            && is_valid_coinbase_transaction(&self.transactions[0], self.get_block_height())) {
            return false;
        }
        let mut i: usize = 1;
        while i < self.transactions.len()
            invariant
                1 <= i <= self@.transactions.len(),
                forall|j: int|
                    1 <= j < i ==> spec_tx_valid(
                        #[trigger] self@.transactions[j],
                        utxos_view(unspent_transactions@),
                    ),
            decreases self@.transactions.len() - i,
        {
            if !self.transactions[i].is_valid(unspent_transactions) {
                proof {
                    assert(self@.transactions[i as int] == self.transactions@[i as int]@);
                }
                return false;
            }
            i = i + 1;
        }
        true
    }
}


/// The key under which the beacon for a block after `prev` is kept.
pub open spec fn beacon_key_for(prev: BlockView, block: BlockView) -> BeaconKey {
    BeaconKey { latest_block_hash: prev.hash, timestamp: block.timestamp }
}

/// Whether the stored beacons hold one for the block and it agrees with
/// the block's.
pub open spec fn spec_beacon_agrees(
    beacons: Map<BeaconKey, Seq<i32>>,
    prev: BlockView,
    block: BlockView,
) -> bool {
    beacons.contains_key(beacon_key_for(prev, block)) && spec_is_valid_beacon(
        beacons[beacon_key_for(prev, block)],
        block.beacon,
    )
}

/// Whether `block` may follow `prev`: next index, later time, linked hash,
/// a seal that matches, a valid block over the unspent outputs and, unless
/// it lies deeper than the checkpoint, a beacon that agrees with ours.
pub open spec fn spec_new_block_valid(
    block: BlockView,
    prev: BlockView,
    utxos: Seq<UtxoView>,
    depth: int,
    beacons: Map<BeaconKey, Seq<i32>>,
) -> bool {
    &&& block.index == prev.index + 1
    &&& block.timestamp > prev.timestamp
    &&& block.previous_hash == prev.hash
    &&& block.hash@ == spec_block_hash(block_data_of(block), block.vdf_solution, block.signature)
    &&& spec_block_valid(block, utxos, VDF_DIFFICULTY)
    &&& (depth > CHECKPOINT_DEPTH || spec_beacon_agrees(beacons, prev, block))
}

/// Whether a chain is valid: it starts with the first block and each block
/// may follow the one before it, judged over the unspent outputs of the
/// whole chain and at its depth below the tip.
pub open spec fn spec_chain_valid(blocks: Seq<BlockView>, beacons: Map<BeaconKey, Seq<i32>>) -> bool {
    &&& blocks.len() > 0
    &&& spec_is_genesis(blocks[0])
    &&& forall|i: int| 1 <= i < blocks.len() ==> #[trigger] spec_link_valid(blocks, i, beacons)
}

/// Whether the block at `i` may follow the one before it within the chain.
pub open spec fn spec_link_valid(blocks: Seq<BlockView>, i: int, beacons: Map<BeaconKey, Seq<i32>>) -> bool {
    spec_new_block_valid(
        blocks[i],
        blocks[i - 1],
        spec_chain_utxos(blocks).0,
        spec_block_depth(blocks, blocks[i].previous_hash),
        beacons,
    )
}

/// Whether `block` may follow `previous_block`, given the unspent outputs,
/// the block's depth below the tip and our stored beacons.
pub fn is_valid_new_block<C: BeaconCache>(
    block: &Block,
    previous_block: &Block,
    unspent_transactions: &[UnspentTransaction],
    block_depth: usize,
    cache: &C,
) -> (r: bool)
    ensures
        r == spec_new_block_valid(
            block@,
            previous_block@,
            utxos_view(unspent_transactions@),
            block_depth as int,
            cache.beacons(),
        ),
{
    let beacon_ok = if block_depth > CHECKPOINT_DEPTH {
        true
    } else {
        match cache.get(&BeaconKey::new(&previous_block.hash, block.timestamp)) {
            Some(beacon) => is_valid_beacon(&beacon, &block.beacon),
            None => {
                return false;
            },
        }
    };
    if !(previous_block.index < u64::MAX && block.index == previous_block.index + 1) {
        return false;
    }
    if !(block.timestamp > previous_block.timestamp) {
        return false;
    }
    if !hashes_equal(&block.previous_hash, &previous_block.hash) {
        return false;
    }
    let calculated = block.calculate_hash();
    if !hashes_equal(&calculated, &block.hash) {
        proof {
            if block.hash@ == calculated@ {
                vstd::array::axiom_array_ext_equal(calculated, block.hash);
            }
        }
        return false;
    }
    block.is_valid(unspent_transactions, VDF_DIFFICULTY) && beacon_ok
}

impl Chain {
    /// Whether this chain is valid, judged with our stored beacons.
    pub fn is_valid<C: BeaconCache>(&self, cache: &C) -> (r: bool)
        requires
            spec_ids_fit(self@),
        ensures
            r == spec_chain_valid(self@, cache.beacons()),
    {
        if self.blocks.len() == 0 {
            return false;
        }
        if !is_genesis_block(&self.blocks[0]) {
            return false;
        }
        let ghost bs = self@;
        let (unspent_transactions, _) = self.get_unspent_transactions();
        let mut i: usize = 1;
        while i < self.blocks.len()
            invariant
                1 <= i <= bs.len(),
                bs == self@,
                utxos_view(unspent_transactions@) == spec_chain_utxos(bs).0,
                forall|j: int| 1 <= j < i ==> #[trigger] spec_link_valid(bs, j, cache.beacons()),
            decreases bs.len() - i,
        {
            let depth = self.get_block_depth(&self.blocks[i]);
            let ok = is_valid_new_block(
                &self.blocks[i],
                &self.blocks[i - 1],
                unspent_transactions.as_slice(),
                depth,
                cache,
            );
            proof {
                assert(self.blocks@[i as int]@ == bs[i as int]);
                assert(self.blocks@[i - 1]@ == bs[i - 1]);
                assert(ok == spec_link_valid(bs, i as int, cache.beacons()));
            }
            if !ok {
                return false;
            }
            i = i + 1;
        }
        true
    }
}

/// A valid transaction balances: what its inputs bring in, the amounts of
/// the unspent outputs they name, is exactly its fee plus the amounts it
/// pays out; every input names an unspent output that is there; and the
/// sender's signature verifies.
pub proof fn lemma_valid_tx_balances(tx: TxView, utxos: Seq<UtxoView>)
    requires
        spec_tx_valid(tx, utxos),
    ensures
        spec_input_total(tx.tx_in, utxos) == tx.fee + spec_sum_out(tx.out),
        forall|k: int| 0 <= k < tx.tx_in.len() ==> (#[trigger] spec_find_amount(utxos, tx.tx_in[k].unspent_id)) is Some,
        spec_tx_signature_ok(tx),
        tx.fee + spec_sum_out(tx.out) > 0,
        spec_is_valid_address(tx.sender),
{
}

/// In a valid block every transaction after the reward is a valid
/// transaction over the given unspent outputs: it balances, its inputs
/// name outputs that are there, and its signature verifies.
pub proof fn lemma_valid_block_checks_every_payment(b: BlockView, utxos: Seq<UtxoView>, difficulty: u64, i: int)
    requires
        spec_block_valid(b, utxos, difficulty),
        1 <= i < b.transactions.len(),
    ensures
        spec_input_total(b.transactions[i].tx_in, utxos) == b.transactions[i].fee + spec_sum_out(
            b.transactions[i].out,
        ),
        forall|k: int|
            0 <= k < b.transactions[i].tx_in.len() ==> (#[trigger] spec_find_amount(
                utxos,
                b.transactions[i].tx_in[k].unspent_id,
            )) is Some,
        spec_tx_signature_ok(b.transactions[i]),
{
    lemma_valid_tx_balances(b.transactions[i], utxos);
}

/// A block accepted after `prev` follows it: the next index, a later time
/// and `prev`'s hash as its predecessor. Within the checkpoint depth it is
/// accepted only where the stored beacons hold one under `prev`'s hash and
/// the block's time that differs from the block's beacon by at most 5 at
/// every index both have.
pub proof fn lemma_accepted_block_follows(
    block: BlockView,
    prev: BlockView,
    utxos: Seq<UtxoView>,
    depth: int,
    beacons: Map<BeaconKey, Seq<i32>>,
)
    requires
        spec_new_block_valid(block, prev, utxos, depth, beacons),
    ensures
        block.index == prev.index + 1,
        block.timestamp > prev.timestamp,
        block.previous_hash == prev.hash,
        depth <= CHECKPOINT_DEPTH ==> beacons.contains_key(
            BeaconKey { latest_block_hash: prev.hash, timestamp: block.timestamp },
        ),
        depth <= CHECKPOINT_DEPTH ==> forall|j: int|
            0 <= j < block.beacon.len() && j < beacons[BeaconKey {
                latest_block_hash: prev.hash,
                timestamp: block.timestamp,
            }].len() ==> -5 <= #[trigger] beacons[BeaconKey {
                latest_block_hash: prev.hash,
                timestamp: block.timestamp,
            }][j] - block.beacon[j] <= 5,
{
}

/// The predecessor at index `k` lies at most as many blocks below the tip
/// as there are blocks after it.
proof fn lemma_depth_at_most(blocks: Seq<BlockView>, k: int)
    requires
        0 <= k < blocks.len(),
    ensures
        0 <= spec_block_depth(blocks, blocks[k].hash) <= blocks.len() - 1 - k,
    decreases blocks.len(),
{
    if blocks.last().hash != blocks[k].hash {
        lemma_depth_at_most(blocks.drop_last(), k);
        assert(blocks.drop_last()[k] == blocks[k]);
    }
}

/// In a valid chain every block whose predecessor lies within the
/// checkpoint depth of the tip (at most `CHECKPOINT_DEPTH` blocks follow
/// the predecessor) carries a beacon that agrees, within 5 at every index
/// both have, with the one stored under the predecessor's hash and the
/// block's time; and each block links to the one before it.
pub proof fn lemma_valid_chain_recent_beacons(blocks: Seq<BlockView>, beacons: Map<BeaconKey, Seq<i32>>, i: int)
    requires
        spec_chain_valid(blocks, beacons),
        1 <= i < blocks.len(),
        blocks.len() - i <= CHECKPOINT_DEPTH,
    ensures
        spec_is_genesis(blocks[0]),
        blocks[i].previous_hash == blocks[i - 1].hash,
        blocks[i].index == blocks[i - 1].index + 1,
        beacons.contains_key(BeaconKey { latest_block_hash: blocks[i - 1].hash, timestamp: blocks[i].timestamp }),
        forall|j: int|
            0 <= j < blocks[i].beacon.len() && j < beacons[BeaconKey {
                latest_block_hash: blocks[i - 1].hash,
                timestamp: blocks[i].timestamp,
            }].len() ==> -5 <= #[trigger] beacons[BeaconKey {
                latest_block_hash: blocks[i - 1].hash,
                timestamp: blocks[i].timestamp,
            }][j] - blocks[i].beacon[j] <= 5,
{
    assert(spec_link_valid(blocks, i, beacons));
    lemma_depth_at_most(blocks, i - 1);
    lemma_accepted_block_follows(
        blocks[i],
        blocks[i - 1],
        spec_chain_utxos(blocks).0,
        spec_block_depth(blocks, blocks[i].previous_hash),
        beacons,
    );
}

/// A valid block holds between one and `MAX_TRANSACTIONS_PER_BLOCK`
/// transactions, the first of them the reward: sent by the coinbase sender,
/// spending nothing, paying `COINBASE_AMOUNT` to one output; and its
/// signature and delay proof verify.
pub proof fn lemma_valid_block_shape(b: BlockView, utxos: Seq<UtxoView>, difficulty: u64)
    requires
        spec_block_valid(b, utxos, difficulty),
    ensures
        1 <= b.transactions.len() <= MAX_TRANSACTIONS_PER_BLOCK,
        b.transactions[0].sender == COINBASE_SENDER@,
        b.transactions[0].tx_in.len() == 0,
        b.transactions[0].out.len() == 1,
        b.transactions[0].out[0].amount == COINBASE_AMOUNT,
        spec_block_signature_ok(b),
        spec_block_vdf_ok(b, difficulty),
{
}

/// Deeper than the checkpoint, the stored beacons play no part: a block is
/// accepted after `prev` with one set of beacons exactly where it is with
/// any other.
pub proof fn lemma_deep_block_ignores_beacons(
    block: BlockView,
    prev: BlockView,
    utxos: Seq<UtxoView>,
    depth: int,
    beacons1: Map<BeaconKey, Seq<i32>>,
    beacons2: Map<BeaconKey, Seq<i32>>,
)
    requires
        depth > CHECKPOINT_DEPTH,
    ensures
        spec_new_block_valid(block, prev, utxos, depth, beacons1) == spec_new_block_valid(
            block,
            prev,
            utxos,
            depth,
            beacons2,
        ),
{
}

} // verus!
