use btfy::beacon::{Beacon, BeaconCache, BeaconKey, InMemoryBeaconCache};
use btfy::block::{genesis_block, Block};
use btfy::chain::Chain;
use btfy::effect::{when_changed, Effect};
use btfy::event::Event;
use btfy::key::{generate_sk, Address, SignatureWrapper, SK};
use btfy::mining::order_for_mining;
use btfy::p2p::{P2PMessage, Peer};
use btfy::state::{State, MAX_PEERS};
use btfy::transaction::Transaction;
use btfy::update::{beacon_keys_to_prefetch, handle_mine_block, missing_beacon_keys, update};

fn keypair() -> (Address, SK) {
    let sk = generate_sk(512).unwrap();
    let pk = sk.to_pk().unwrap();
    (pk, sk)
}

fn next_block(prev: &Block, index_step: u64) -> Block {
    Block {
        index: prev.index + index_step,
        timestamp: prev.timestamp + 1,
        transactions: vec![],
        beacon: Beacon { values: vec![] },
        vdf_solution: vec![],
        previous_hash: prev.hash,
        issuer: prev.issuer.clone(),
        signature: SignatureWrapper::default(),
        hash: [prev.index as u8 + 9; 32],
    }
}

fn fresh_state() -> State {
    let (_, sk) = keypair();
    State::new(sk, Chain::new()).unwrap()
}

fn tx_with_fee(sender: &Address, fee: u64, id: u64) -> Transaction {
    Transaction {
        sender: sender.clone(),
        out: Vec::new(),
        tx_in: vec![btfy::utxo::TransactionIn { unspent_id: id }],
        fee,
        signature: SignatureWrapper::default(),
    }
}

#[test]
fn state_new_derives_the_address_from_the_key() {
    let (pk, sk) = keypair();
    let state = State::new(sk, Chain::new()).unwrap();
    assert_eq!(state.address, pk);
    assert!(state.transactions.is_empty());
    assert!(state.peers.is_empty());
    assert!(State::new(SK { der: "zz".to_string() }, Chain::new()).is_none());
}

#[test]
fn peers_stop_at_one_past_the_limit() {
    let mut state = fresh_state();
    let offered: Vec<Peer> = (0..MAX_PEERS + 10).map(|i| Peer::new(&format!("10.0.0.{}:1", i))).collect();
    assert!(state.add_peers(&offered));
    assert_eq!(state.peers.len(), MAX_PEERS + 1);
    assert!(!state.add_peers(&[Peer::new("10.9.9.9:1")]));
    assert_eq!(state.peers.len(), MAX_PEERS + 1);
}

#[test]
fn offering_the_same_peer_twice_keeps_one() {
    let mut state = fresh_state();
    let p = Peer::new("10.0.0.1:1");
    assert!(state.add_peers(&[p.clone(), p.clone()]));
    assert_eq!(state.peers, vec![p]);
}

#[test]
fn mining_order_puts_later_of_equal_fees_first() {
    let (a, _) = keypair();
    let txs = vec![tx_with_fee(&a, 2, 1), tx_with_fee(&a, 5, 2), tx_with_fee(&a, 2, 3), tx_with_fee(&a, 1, 4)];
    let ordered = order_for_mining(&txs);
    let ids: Vec<u64> = ordered.iter().map(|t| t.tx_in[0].unspent_id).collect();
    assert_eq!(ids, vec![2, 3, 1, 4]);
}

#[test]
fn mining_keeps_the_rest_pending_in_mining_order() {
    let mut state = fresh_state();
    let a = state.address.clone();
    state.transactions = (0..103u64).map(|i| tx_with_fee(&a, i % 7, i)).collect();
    let (next, effect) = handle_mine_block(state.clone());
    let all = order_for_mining(&state.transactions);
    match effect {
        Effect::MineBlock(mined) => {
            assert_eq!(mined.len(), 100);
            assert_eq!(mined[..], all[..100]);
            assert_eq!(next.transactions[..], all[100..]);
            let lowest_mined = mined.iter().map(|t| t.fee).min().unwrap();
            assert!(next.transactions.iter().all(|t| t.fee <= lowest_mined));
        }
        _ => panic!("expected MineBlock effect"),
    }
}

#[test]
fn completed_block_that_the_chain_refuses_changes_nothing() {
    let state = fresh_state();
    let cache = InMemoryBeaconCache::new();
    let bad = next_block(&genesis_block(), 1);
    let (next, effect) = update(Event::CompletedMineBlock(bad), state.clone(), &cache);
    assert_eq!(next, state);
    assert_eq!(effect, Effect::Nothing);
}

#[test]
fn queries_answer_with_the_chain() {
    let state = fresh_state();
    let cache = InMemoryBeaconCache::new();
    let (next, effect) = update(Event::P2PMessage(None, P2PMessage::QueryAll), state.clone(), &cache);
    assert_eq!(next, state);
    assert_eq!(effect, Effect::Broadcast(P2PMessage::ResponseBlockChain(state.chain.blocks.clone())));
    let (_, effect) = update(Event::P2PMessage(None, P2PMessage::QueryLatest), state.clone(), &cache);
    assert_eq!(effect, Effect::Broadcast(P2PMessage::ResponseBlockChain(vec![genesis_block()])));
}

#[test]
fn blocks_from_a_peer_are_judged_by_their_tip() {
    let state = fresh_state();
    let cache = InMemoryBeaconCache::new();
    let g = genesis_block();
    let empty = update(Event::P2PMessage(None, P2PMessage::ResponseBlockChain(vec![])), state.clone(), &cache);
    assert_eq!(empty.1, Effect::Nothing);
    let lower = update(Event::P2PMessage(None, P2PMessage::ResponseBlockChain(vec![g.clone()])), state.clone(), &cache);
    assert_eq!(lower, (state.clone(), Effect::Nothing));
    let linked = next_block(&g, 1);
    let on_top =
        update(Event::P2PMessage(None, P2PMessage::ResponseBlockChain(vec![linked.clone()])), state.clone(), &cache);
    assert_eq!(on_top, (state.clone(), Effect::Nothing));
    let mut stray = next_block(&g, 5);
    stray.previous_hash = [3; 32];
    let alone =
        update(Event::P2PMessage(None, P2PMessage::ResponseBlockChain(vec![stray.clone()])), state.clone(), &cache);
    assert_eq!(alone, (state.clone(), Effect::Broadcast(P2PMessage::QueryAll)));
    let longer =
        update(Event::P2PMessage(None, P2PMessage::ResponseBlockChain(vec![g, stray])), state.clone(), &cache);
    assert_eq!(longer, (state, Effect::Broadcast(P2PMessage::QueryAll)));
}

#[test]
fn prefetch_keys_follow_the_blocks_from_a_peer() {
    let chain = Chain::new();
    let g = genesis_block();
    let linked = next_block(&g, 1);
    assert_eq!(
        beacon_keys_to_prefetch(&chain, &[linked.clone()]),
        vec![BeaconKey::new(&g.hash, linked.timestamp)]
    );
    assert!(beacon_keys_to_prefetch(&chain, &[]).is_empty());
    assert!(beacon_keys_to_prefetch(&chain, &[g.clone()]).is_empty());
    let mut stray = next_block(&g, 2);
    stray.previous_hash = [3; 32];
    assert!(beacon_keys_to_prefetch(&chain, &[stray.clone()]).is_empty());
    let b1 = next_block(&g, 1);
    let mut b2 = next_block(&b1, 1);
    b2.previous_hash = [4; 32];
    assert_eq!(
        beacon_keys_to_prefetch(&chain, &[g.clone(), b1.clone(), b2.clone()]),
        vec![BeaconKey::new(&g.hash, b1.timestamp), BeaconKey::new(&b1.hash, b2.timestamp)]
    );
}

#[test]
fn prefetch_keys_stop_at_the_checkpoint_depth() {
    let chain = Chain::new();
    let mut blocks = vec![genesis_block()];
    for _ in 0..700 {
        let b = next_block(blocks.last().unwrap(), 1);
        blocks.push(b);
    }
    let keys = beacon_keys_to_prefetch(&chain, &blocks);
    assert_eq!(keys.len(), 600);
    assert_eq!(keys[0], BeaconKey::new(&blocks[100].hash, blocks[101].timestamp));
    assert_eq!(keys[599], BeaconKey::new(&blocks[699].hash, blocks[700].timestamp));
}

#[test]
fn missing_keys_are_those_not_stored() {
    let mut cache = InMemoryBeaconCache::new();
    let k1 = BeaconKey::new(&[1; 32], 1);
    let k2 = BeaconKey::new(&[2; 32], 2);
    cache.insert(k1, Beacon { values: vec![1] });
    assert_eq!(missing_beacon_keys(&cache, &vec![k1, k2, k1]), vec![k2]);
}

#[test]
fn when_changed_keeps_the_effect_only_on_change() {
    assert_eq!(when_changed(Effect::Broadcast(P2PMessage::QueryAll), true), Effect::Broadcast(P2PMessage::QueryAll));
    assert_eq!(when_changed(Effect::Broadcast(P2PMessage::QueryAll), false), Effect::Nothing);
}

#[test]
fn removing_peers_keeps_the_others_in_order() {
    let mut state = fresh_state();
    let ps: Vec<Peer> = (0..4).map(|i| Peer::new(&format!("10.0.0.{}:1", i))).collect();
    state.add_peers(&ps);
    let cache = InMemoryBeaconCache::new();
    let (next, effect) = update(Event::RemovePeers(vec![ps[1].clone(), ps[3].clone()]), state, &cache);
    assert_eq!(next.peers, vec![ps[0].clone(), ps[2].clone()]);
    assert_eq!(effect, Effect::Nothing);
}

#[test]
fn a_node_starts_by_mining_then_offering_its_peers() {
    let mut config = btfy::config::Config::default();
    assert!(btfy::update::initial_events(&config).is_empty());
    config.mining = true;
    config.peer = vec!["10.0.0.1:1".to_string(), "10.0.0.2:1".to_string()];
    assert_eq!(
        btfy::update::initial_events(&config),
        vec![
            Event::MineBlock,
            Event::AddPeer(Peer::new("10.0.0.1:1")),
            Event::AddPeer(Peer::new("10.0.0.2:1")),
        ]
    );
}
