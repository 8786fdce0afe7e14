use vstd::prelude::*;

use crate::beacon::{is_valid_beacon, BeaconCache, BeaconKey};
use crate::block::{block_data_of, genesis_block, spec_is_genesis, Block, BlockView};
use crate::hash::{hashes_equal, Hashed};
use crate::utxo_state::{spec_blocks_span, spec_chain_utxos, spec_ids_fit, spec_txs_span};
use crate::validation::{is_valid_new_block, spec_beacon_agrees, spec_chain_valid, spec_new_block_valid};

verus! {

/// For blocks deeper than this below the tip, the beacon is not checked.
pub const CHECKPOINT_DEPTH: usize = 600;

/// The blocks of a chain, the first block first.
#[derive(Debug, PartialEq)]
pub struct Chain {
    pub blocks: Vec<Block>,
}

/// The views of a sequence of blocks.
pub open spec fn blocks_view(s: Seq<Block>) -> Seq<BlockView> {
    s.map_values(|b: Block| b@)
}

impl View for Chain {
    type V = Seq<BlockView>;

    open spec fn view(&self) -> Seq<BlockView> {
        blocks_view(self.blocks@)
    }
}

/// Copies a list of blocks.
pub fn clone_blocks(v: &Vec<Block>) -> (r: Vec<Block>)
    ensures
        blocks_view(r@) == blocks_view(v@),
{
    let r = v.clone();
    proof {
        assert(blocks_view(r@) =~= blocks_view(v@));
    }
    r
}

impl Clone for Chain {
    fn clone(&self) -> (r: Self)
        ensures
            r@ == self@,
    {
        Chain { blocks: clone_blocks(&self.blocks) }
    }
}

/// The first block of every chain.
pub open spec fn spec_genesis() -> BlockView {
    choose|b: BlockView| spec_is_genesis(b)
}

/// Only one block is the first block.
pub proof fn lemma_genesis_unique(b: BlockView)
    requires
        spec_is_genesis(b),
    ensures
        b == spec_genesis(),
{
    let g = spec_genesis();
    assert(spec_is_genesis(g));
    assert(b.transactions =~= g.transactions);
    assert(b.beacon =~= g.beacon);
    assert(b.vdf_solution =~= g.vdf_solution);
    assert(b.signature =~= g.signature);
    assert(b.issuer =~= g.issuer);
    assert(b.previous_hash@ =~= g.previous_hash@);
    vstd::array::axiom_array_ext_equal(b.previous_hash, g.previous_hash);
    assert(block_data_of(b) == block_data_of(g));
    vstd::array::axiom_array_ext_equal(b.hash, g.hash);
}

/// The tip of a chain; the first block where the chain is empty.
pub open spec fn spec_latest_block(blocks: Seq<BlockView>) -> BlockView {
    if blocks.len() == 0 {
        spec_genesis()
    } else {
        blocks.last()
    }
}

impl Default for Chain {
    fn default() -> (r: Self)
        ensures
            r@ == seq![spec_genesis()],
    {
        Chain::new()
    }
}

impl Chain {
    /// A chain of the first block alone.
    pub fn new() -> (r: Self)
        ensures
            r@ == seq![spec_genesis()],
            forall|beacons: Map<BeaconKey, Seq<i32>>| #[trigger] spec_chain_valid(r@, beacons),
    {
        let mut blocks: Vec<Block> = Vec::new();
        let g = genesis_block();
        proof {
            lemma_genesis_unique(g@);
        }
        blocks.push(g);
        let r = Chain { blocks };
        proof {
            assert(r@ =~= seq![spec_genesis()]);
        }
        r
    }

    /// The tip of the chain, or the first block where the chain is empty.
    pub fn get_latest_block(&self) -> (r: Block)
        ensures
            r@ == spec_latest_block(self@),
    {
        if self.blocks.len() == 0 {
            let g = genesis_block();
            proof {
                lemma_genesis_unique(g@);
            }
            g
        } else {
            self.blocks[self.blocks.len() - 1].clone()
        }
    }
}

/// How many blocks, counted back from the tip, come before the block whose
/// hash is `previous_hash`; all of them where there is none.
pub open spec fn spec_block_depth(blocks: Seq<BlockView>, previous_hash: Hashed) -> int
    decreases blocks.len(),
{
    if blocks.len() == 0 {
        0
    } else if blocks.last().hash == previous_hash {
        0
    } else {
        1 + spec_block_depth(blocks.drop_last(), previous_hash)
    }
}

/// Whether our own reading of the beacon settles a block: only a block that
/// another node made and that arrives now is held to it.
pub open spec fn spec_own_beacon_ok(
    beacons: Map<BeaconKey, Seq<i32>>,
    prev: BlockView,
    block: BlockView,
    i_generated: bool,
    generated_now: bool,
) -> bool {
    !(!i_generated && generated_now) || spec_beacon_agrees(beacons, prev, block)
}

/// Whether `block` is accepted on top of the chain.
pub open spec fn spec_add_block_accepts(
    blocks: Seq<BlockView>,
    block: BlockView,
    i_generated: bool,
    generated_now: bool,
    beacons: Map<BeaconKey, Seq<i32>>,
) -> bool {
    let prev = spec_latest_block(blocks);
    &&& spec_own_beacon_ok(beacons, prev, block, i_generated, generated_now)
    &&& spec_new_block_valid(
        block,
        prev,
        spec_chain_utxos(blocks).0,
        spec_block_depth(blocks, block.previous_hash),
        beacons,
    )
    &&& spec_ids_fit(blocks.push(block))
}

impl Chain {
    /// How many blocks, counted back from the tip, come before the one that
    /// the given block names as its predecessor.
    pub fn get_block_depth(&self, block: &Block) -> (r: usize)
        ensures
            r == spec_block_depth(self@, block.previous_hash),
    {
        let ghost bs = self@;
        let mut count: usize = 0;
        let mut i: usize = self.blocks.len();
        proof {
            assert(bs.take(bs.len() as int) =~= bs);
        }
        while i > 0
            invariant
                0 <= i <= bs.len(),
                bs == self@,
                count == bs.len() - i,
                count <= bs.len(),
                bs.len() == self.blocks.len(),
                spec_block_depth(bs, block.previous_hash) == count + spec_block_depth(
                    bs.take(i as int),
                    block.previous_hash,
                ),
            decreases i,
        {
            proof {
                assert(bs.take(i as int).drop_last() =~= bs.take(i - 1));
                assert(bs.take(i as int).last() == self.blocks@[i - 1]@);
            }
            if hashes_equal(&self.blocks[i - 1].hash, &block.previous_hash) {
                return count;
            }
            count = count + 1;
            i = i - 1;
        }
        proof {
            assert(bs.take(bs.len() as int) =~= bs);
        }
        count
    }

    fn add_block_without_validation(&self, block: Block) -> (r: Self)
        ensures
            r@ == self@.push(block@),
    {
        let mut blocks = clone_blocks(&self.blocks);
        let ghost before = blocks@;
        blocks.push(block);
        proof {
            assert(blocks_view(blocks@) =~= blocks_view(before).push(block@));
        }
        Chain { blocks }
    }

    /// Whether the ids that the chain hands out all fit in 64 bits.
    pub fn ids_fit(&self) -> (r: bool)
        ensures
            r == spec_ids_fit(self@),
    {
        let ghost bs = self@;
        let mut span: u128 = 0;
        let mut i: usize = 0;
        proof {
            assert(bs.take(0) =~= Seq::<BlockView>::empty());
        }
        while i < self.blocks.len()
            invariant
                0 <= i <= bs.len(),
                bs == self@,
                span == spec_blocks_span(bs.take(i as int)),
                span <= u64::MAX,
            decreases bs.len() - i,
        {
            let block = &self.blocks[i];
            let ghost txs = block@.transactions;
            let mut j: usize = 0;
            proof {
                assert(bs.take(i + 1).drop_last() =~= bs.take(i as int));
                assert(bs.take(i + 1).last() == block@);
                assert(txs.take(0) =~= Seq::<crate::transaction::TxView>::empty());
            }
            while j < block.transactions.len()
                invariant
                    0 <= j <= txs.len(),
                    0 <= i < bs.len(),
                    bs == self@,
                    block@ == bs[i as int],
                    txs == block@.transactions,
                    span == spec_blocks_span(bs.take(i as int)) + spec_txs_span(txs.take(j as int)),
                    span <= u64::MAX,
                decreases txs.len() - j,
            {
                proof {
                    assert(txs.take(j + 1).drop_last() =~= txs.take(j as int));
                    assert(txs.take(j + 1).last() == block.transactions@[j as int]@);
                }
                span = span + block.transactions[j].out.len() as u128 + 1;
                if span > u64::MAX as u128 {
                    proof {
                        lemma_span_exceeds(bs, i as int, j as int);
                    }
                    return false;
                }
                j = j + 1;
            }
            proof {
                assert(txs.take(txs.len() as int) =~= txs);
            }
            i = i + 1;
        }
        proof {
            assert(bs.take(bs.len() as int) =~= bs);
        }
        span < u64::MAX as u128
    }

    /// Takes `new_chain` where it is valid and longer than this chain;
    /// keeps this chain otherwise.
    pub fn replace<C: BeaconCache>(&self, new_chain: Chain, cache: &C) -> (r: Self)
        ensures
            ({
                let accepted = spec_ids_fit(new_chain@) && spec_chain_valid(new_chain@, cache.beacons())
                    && new_chain@.len() > self@.len();
                &&& accepted ==> r@ == new_chain@
                &&& !accepted ==> r@ == self@
            }),
    {
        if new_chain.ids_fit() && new_chain.is_valid(cache) && new_chain.blocks.len() > self.blocks.len() {
            Chain { blocks: new_chain.blocks }
        } else {
            self.clone()
        }
    }

    /// Adds `block` on top of the chain where it is accepted, and tells
    /// whether it was; the chain is unchanged otherwise. A block that another
    /// node made and that arrives now must carry a beacon that agrees with
    /// the one we stored.
    pub fn add_block<C: BeaconCache>(
        &self,
        block: Block,
        i_generated: bool,
        generated_now: bool,
        cache: &C,
    ) -> (r: (Self, bool))
        requires
            spec_ids_fit(self@),
        ensures
            ({
                let accepted = spec_add_block_accepts(
                    self@,
                    block@,
                    i_generated,
                    generated_now,
                    cache.beacons(),
                );
                &&& r.1 == accepted
                &&& accepted ==> r.0@ == self@.push(block@)
                &&& !accepted ==> r.0@ == self@
            }),
    {
        let previous_block = self.get_latest_block();
        let beacon_ok = if !i_generated && generated_now {
            match cache.get(&BeaconKey::new(&previous_block.hash, block.timestamp)) {
                Some(beacon) => is_valid_beacon(&beacon, &block.beacon),
                None => false,
            }
        } else {
            true
        };
        let (unspent_transactions, _) = self.get_unspent_transactions();
        let depth = self.get_block_depth(&block);
        let valid = is_valid_new_block(
            &block,
            &previous_block,
            unspent_transactions.as_slice(),
            depth,
            cache,
        );
        if valid && beacon_ok {
            let next = self.add_block_without_validation(block);
            if next.ids_fit() {
                return (next, true);
            }
        }
        (self.clone(), false)
    }
}

proof fn lemma_span_exceeds(bs: Seq<BlockView>, i: int, j: int)
    requires
        0 <= i < bs.len(),
        0 <= j < bs[i].transactions.len(),
        spec_blocks_span(bs.take(i)) + spec_txs_span(bs[i].transactions.take(j + 1)) > u64::MAX,
    ensures
        !spec_ids_fit(bs),
{
    let txs = bs[i].transactions;
    crate::utxo_state::lemma_txs_span_prefix(txs, j + 1);
    assert(bs.take(i + 1).drop_last() =~= bs.take(i));
    assert(bs.take(i + 1).last() == bs[i]);
    crate::utxo_state::lemma_blocks_span_prefix(bs, i + 1);
}

/// A block that `add_block` accepts on a chain that has blocks follows the
/// chain's last block: it names the last block's hash as its predecessor,
/// carries the next index and a later time, and the ids of the longer
/// chain fit.
pub proof fn lemma_accepted_block_follows_tip(
    blocks: Seq<BlockView>,
    block: BlockView,
    i_generated: bool,
    generated_now: bool,
    beacons: Map<BeaconKey, Seq<i32>>,
)
    requires
        blocks.len() > 0,
        spec_add_block_accepts(blocks, block, i_generated, generated_now, beacons),
    ensures
        block.previous_hash == blocks[blocks.len() - 1].hash,
        block.index == blocks[blocks.len() - 1].index + 1,
        block.timestamp > blocks[blocks.len() - 1].timestamp,
        spec_ids_fit(blocks.push(block)),
{
}

/// `add_block` accepts every block that may follow the chain's last block,
/// judged over the chain's unspent outputs and at its depth, whose beacon
/// agrees with ours where another node made it just now, and after which
/// the ids still fit.
pub proof fn lemma_valid_successor_accepted(
    blocks: Seq<BlockView>,
    block: BlockView,
    i_generated: bool,
    generated_now: bool,
    beacons: Map<BeaconKey, Seq<i32>>,
)
    requires
        blocks.len() > 0,
        spec_new_block_valid(
            block,
            blocks[blocks.len() - 1],
            spec_chain_utxos(blocks).0,
            spec_block_depth(blocks, block.previous_hash),
            beacons,
        ),
        i_generated || !generated_now || spec_beacon_agrees(beacons, blocks[blocks.len() - 1], block),
        spec_ids_fit(blocks.push(block)),
    ensures
        spec_add_block_accepts(blocks, block, i_generated, generated_now, beacons),
{
}

} // verus!
