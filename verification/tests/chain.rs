use btfy::beacon::{Beacon, InMemoryBeaconCache};
use btfy::block::{genesis_block, Block};
use btfy::chain::Chain;
use btfy::key::SignatureWrapper;
use btfy::transaction::Transaction;

fn dummy_block(prev: &Block, txs: Vec<Transaction>, beacon: i32) -> Block {
    Block {
        index: prev.index + 1,
        timestamp: prev.timestamp + 1,
        transactions: txs,
        beacon: Beacon { values: vec![beacon] },
        vdf_solution: vec![],
        previous_hash: prev.hash,
        issuer: prev.issuer.clone(),
        signature: SignatureWrapper::default(),
        hash: [prev.index as u8 + 1; 32],
    }
}

#[test]
fn new_has_only_genesis() {
    let c = Chain::new();
    assert_eq!(c.blocks.len(), 1);
    assert_eq!(c.get_latest_block(), genesis_block());
}

#[test]
fn add_block_rejects_invalid_block() {
    let c = Chain::new();
    let bad = dummy_block(&c.get_latest_block(), vec![], 1);
    let cache = InMemoryBeaconCache::new();
    let (next, changed) = c.add_block(bad, false, false, &cache);
    assert!(!changed);
    assert_eq!(next, c);
}

#[test]
fn replace_rejects_invalid_longer_chain() {
    let base = Chain::new();
    let g = genesis_block();
    let longer_but_invalid = Chain { blocks: vec![g.clone(), dummy_block(&g, vec![], 1)] };
    let cache = InMemoryBeaconCache::new();
    assert_eq!(base.replace(longer_but_invalid, &cache), base);
}

#[test]
fn get_block_depth_counts_from_tip() {
    let g = genesis_block();
    let b1 = dummy_block(&g, vec![], 1);
    let b2 = dummy_block(&b1, vec![], 2);
    let b3 = dummy_block(&b2, vec![], 3);
    let c = Chain { blocks: vec![g.clone(), b1.clone(), b2.clone(), b3.clone()] };

    assert_eq!(c.get_block_depth(&b3), 1);
    assert_eq!(c.get_block_depth(&b2), 2);
    assert_eq!(c.get_block_depth(&b1), 3);
    assert_eq!(c.get_block_depth(&g), 4);
}
