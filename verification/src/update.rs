use vstd::prelude::*;

use crate::beacon::{BeaconCache, BeaconKey};
use crate::block::{Block, BlockView, MAX_TRANSACTIONS_PER_BLOCK};
use crate::config::Config;
use crate::chain::{clone_blocks, spec_add_block_accepts, spec_latest_block, Chain, CHECKPOINT_DEPTH};
use crate::effect::{when_changed, Effect, EffectView};
use crate::event::{Event, EventView};
use crate::generation::{
    checked_sum_amounts, lemma_flex_nonempty, lemma_own_payment_accepted, spec_generated_tx, spec_inputs_for,
    spec_payment_inputs, spec_payment_outs, spec_spendable,
};
use crate::hash::hashes_equal;
use crate::key::{spec_key_signs, spec_key_sound, spec_public_key_of, spec_sign, Address};
use crate::mining::{fees_descending, lemma_mining_order, lemma_mining_order_disjoint, order_for_mining, spec_mining_order};
use crate::p2p::{clone_peers, peers_view, same_peer, MessageView, P2PMessage, Peer};
use crate::state::{
    lemma_add_peers_bounded, lemma_add_peers_distinct, lemma_pool_stays_disjoint, spec_add_peers, spec_pool_accepts,
    spec_pool_disjoint, State, StateView, MAX_PEERS,
};
use crate::transaction::{clone_txs, txs_view, Transaction, TxView};
use crate::utxo::spec_sum_utxos;
use crate::utxo_state::spec_ids_fit;
use crate::validation::{is_valid_address, spec_is_valid_address};

verus! {

/// The peers that are left when the listed ones are dropped, in their order.
pub open spec fn spec_remove_peers(peers: Seq<Seq<char>>, removed: Seq<Seq<char>>) -> Seq<Seq<char>>
    decreases peers.len(),
{
    if peers.len() == 0 {
        Seq::empty()
    } else {
        let r = spec_remove_peers(peers.drop_last(), removed);
        if removed.contains(peers.last()) {
            r
        } else {
            r.push(peers.last())
        }
    }
}

/// How many pending transactions go into a block.
pub open spec fn spec_mined_count(n: int) -> int {
    if n < MAX_TRANSACTIONS_PER_BLOCK {
        n
    } else {
        MAX_TRANSACTIONS_PER_BLOCK as int
    }
}

/// A peer is offered: where it is taken, the node asks around for more.
pub open spec fn spec_handle_add_peer(s: StateView, p: Seq<char>) -> (StateView, EffectView) {
    let next = StateView { peers: spec_add_peers(s.peers, seq![p]), ..s };
    (
        next,
        if next.peers.len() > s.peers.len() {
            EffectView::Broadcast(MessageView::QueryPeers)
        } else {
            EffectView::Nothing
        },
    )
}

/// Peers that could not be reached are dropped.
pub open spec fn spec_handle_remove_peers(s: StateView, removed: Seq<Seq<char>>) -> (StateView, EffectView) {
    (StateView { peers: spec_remove_peers(s.peers, removed), ..s }, EffectView::Nothing)
}

/// The node's own payment: where the recipient's address is well formed,
/// the amounts fit, a payment can be made and signed, and the pool takes
/// it, it enters the pool and goes out to the peers.
pub open spec fn spec_handle_add_transaction(
    s: StateView,
    recipient: Seq<char>,
    send_amount: u64,
    fee: u64,
) -> (StateView, EffectView) {
    let fits = send_amount + fee <= u64::MAX && spec_sum_utxos(
        spec_payment_inputs(s.chain, s.address, s.transactions, (send_amount + fee) as u64),
    ) <= u64::MAX;
    if !spec_is_valid_address(recipient) || !fits {
        (s, EffectView::Nothing)
    } else {
        match spec_generated_tx(s.chain, s.address, recipient, send_amount, s.secret_key, s.transactions, fee) {
            Some(t) => if spec_pool_accepts(s.chain, s.transactions, t) {
                (
                    StateView { transactions: s.transactions.push(t), ..s },
                    EffectView::Broadcast(MessageView::ResponseTransactions(seq![t])),
                )
            } else {
                (s, EffectView::Nothing)
            },
            None => (s, EffectView::Nothing),
        }
    }
}

/// The pending transactions with the highest fees go to the miner, at most
/// a block's worth; the rest stay pending, in mining order.
pub open spec fn spec_handle_mine_block(s: StateView) -> (StateView, EffectView) {
    let order = spec_mining_order(s.transactions);
    let k = spec_mined_count(order.len() as int);
    (StateView { transactions: order.skip(k), ..s }, EffectView::MineBlock(order.take(k)))
}

/// A block that this node mined: where the chain takes it, it goes out to
/// the peers.
pub open spec fn spec_handle_completed_mine_block(
    s: StateView,
    b: BlockView,
    beacons: Map<BeaconKey, Seq<i32>>,
) -> (StateView, EffectView) {
    if spec_add_block_accepts(s.chain, b, true, true, beacons) {
        (
            StateView { chain: s.chain.push(b), ..s },
            EffectView::Broadcast(MessageView::ResponseBlockChain(seq![b])),
        )
    } else {
        (s, EffectView::Nothing)
    }
}

/// Blocks from a peer. Only a tip higher than ours counts: where it follows
/// our tip it is added and passed on; where it does not, the node keeps its
/// chain and asks for whole chains.
pub open spec fn spec_handle_response_block_chain(
    s: StateView,
    blocks: Seq<BlockView>,
    beacons: Map<BeaconKey, Seq<i32>>,
) -> (StateView, EffectView) {
    if blocks.len() == 0 {
        (s, EffectView::Nothing)
    } else {
        let received = blocks.last();
        let held = spec_latest_block(s.chain);
        if received.index <= held.index {
            (s, EffectView::Nothing)
        } else if received.previous_hash == held.hash {
            if spec_add_block_accepts(s.chain, received, false, true, beacons) {
                (
                    StateView { chain: s.chain.push(received), ..s },
                    EffectView::Broadcast(MessageView::ResponseBlockChain(seq![received])),
                )
            } else {
                (s, EffectView::Nothing)
            }
        } else {
            (s, EffectView::Broadcast(MessageView::QueryAll))
        }
    }
}

/// The first of the offered transactions that the pool takes, if any.
pub open spec fn spec_first_accepted(chain: Seq<BlockView>, pool: Seq<TxView>, txs: Seq<TxView>) -> Option<
    TxView,
>
    decreases txs.len(),
{
    if txs.len() == 0 {
        None
    } else if spec_pool_accepts(chain, pool, txs[0]) {
        Some(txs[0])
    } else {
        spec_first_accepted(chain, pool, txs.drop_first())
    }
}

/// Transactions from a peer: the first one that the pool takes enters it,
/// and the pool goes out to the peers; the rest are not tried.
pub open spec fn spec_handle_response_transactions(s: StateView, txs: Seq<TxView>) -> (StateView, EffectView) {
    match spec_first_accepted(s.chain, s.transactions, txs) {
        Some(t) => {
            let pool = s.transactions.push(t);
            (
                StateView { transactions: pool, ..s },
                EffectView::Broadcast(MessageView::ResponseTransactions(pool)),
            )
        },
        None => (s, EffectView::Nothing),
    }
}

/// A peer asks for our peers: it is offered as a peer itself, and gets
/// the peers we knew before.
pub open spec fn spec_handle_query_peers(s: StateView, peer: Option<Seq<char>>) -> (StateView, EffectView) {
    let next = match peer {
        Some(p) => StateView { peers: spec_add_peers(s.peers, seq![p]), ..s },
        None => s,
    };
    (next, EffectView::Broadcast(MessageView::ResponsePeers(s.peers)))
}

/// Peers from a peer: each is offered; where any was taken, our peers go
/// out.
pub open spec fn spec_handle_response_peers(s: StateView, ps: Seq<Seq<char>>) -> (StateView, EffectView) {
    let next = StateView { peers: spec_add_peers(s.peers, ps), ..s };
    (
        next,
        if next.peers.len() > s.peers.len() {
            EffectView::Broadcast(MessageView::ResponsePeers(next.peers))
        } else {
            EffectView::Nothing
        },
    )
}

/// A message from a peer.
pub open spec fn spec_handle_p2p_message(
    s: StateView,
    peer: Option<Seq<char>>,
    m: MessageView,
    beacons: Map<BeaconKey, Seq<i32>>,
) -> (StateView, EffectView) {
    match m {
        MessageView::QueryAll => (s, EffectView::Broadcast(MessageView::ResponseBlockChain(s.chain))),
        MessageView::QueryLatest => (
            s,
            EffectView::Broadcast(MessageView::ResponseBlockChain(seq![spec_latest_block(s.chain)])),
        ),
        MessageView::ResponseBlockChain(blocks) => spec_handle_response_block_chain(s, blocks, beacons),
        MessageView::QueryTransactions => (
            s,
            EffectView::Broadcast(MessageView::ResponseTransactions(s.transactions)),
        ),
        MessageView::ResponseTransactions(txs) => spec_handle_response_transactions(s, txs),
        MessageView::QueryPeers => spec_handle_query_peers(s, peer),
        MessageView::ResponsePeers(ps) => spec_handle_response_peers(s, ps),
    }
}

/// The node's step: the state after an event, and what to do next.
pub open spec fn spec_update(s: StateView, e: EventView, beacons: Map<BeaconKey, Seq<i32>>) -> (
    StateView,
    EffectView,
) {
    match e {
        EventView::AddPeer(p) => spec_handle_add_peer(s, p),
        EventView::RemovePeers(ps) => spec_handle_remove_peers(s, ps),
        EventView::AddTransaction(recipient, send_amount, fee) => spec_handle_add_transaction(
            s,
            recipient,
            send_amount,
            fee,
        ),
        EventView::MineBlock => spec_handle_mine_block(s),
        EventView::CompletedMineBlock(b) => spec_handle_completed_mine_block(s, b, beacons),
        EventView::P2PMessage(peer, m) => spec_handle_p2p_message(s, peer, m, beacons),
    }
}

/// The keys of the beacons that handling blocks from a peer will look up:
/// for a block on top of our tip, the one for it; for a longer chain, those
/// of its blocks within the checkpoint depth of its tip.
pub open spec fn spec_prefetch_keys(chain: Seq<BlockView>, blocks: Seq<BlockView>) -> Seq<BeaconKey> {
    if blocks.len() == 0 {
        Seq::empty()
    } else {
        let received = blocks.last();
        let held = spec_latest_block(chain);
        if received.index <= held.index {
            Seq::empty()
        } else if received.previous_hash == held.hash {
            seq![BeaconKey { latest_block_hash: held.hash, timestamp: received.timestamp }]
        } else if blocks.len() == 1 {
            Seq::empty()
        } else {
            spec_window_keys(blocks)
        }
    }
}

/// The beacon keys of the blocks of a chain that lie within the checkpoint
/// depth of its tip: each after the block before it.
pub open spec fn spec_window_keys(blocks: Seq<BlockView>) -> Seq<BeaconKey> {
    let start = if blocks.len() > CHECKPOINT_DEPTH + 1 {
        blocks.len() - (CHECKPOINT_DEPTH + 1)
    } else {
        0
    };
    Seq::new(
        (blocks.len() - 1 - start) as nat,
        |k: int|
            BeaconKey {
                latest_block_hash: blocks[start + k].hash,
                timestamp: blocks[start + k + 1].timestamp,
            },
    )
}

/// A peer is offered; where it is taken, the node asks around for more.
pub fn handle_add_peer(state: State, new_peer: Peer) -> (r: (State, Effect))
    ensures
        (r.0@, r.1@) == spec_handle_add_peer(state@, new_peer@),
{
    let mut state = state;
    let ghost p = new_peer@;
    let mut offered: Vec<Peer> = Vec::new();
    offered.push(new_peer);
    proof {
        assert(peers_view(offered@) =~= seq![p]);
    }
    let added = state.add_peers(offered.as_slice());
    (state, when_changed(Effect::Broadcast(P2PMessage::QueryPeers), added))
}

/// Drops the listed peers.
pub fn handle_remove_peers(state: State, remove_peers: Vec<Peer>) -> (r: (State, Effect))
    ensures
        (r.0@, r.1@) == spec_handle_remove_peers(state@, peers_view(remove_peers@)),
{
    let mut state = state;
    let ghost removed = peers_view(remove_peers@);
    let ghost pv = peers_view(state.peers@);
    let mut kept: Vec<Peer> = Vec::new();
    let mut i: usize = 0;
    proof {
        assert(pv.take(0) =~= Seq::<Seq<char>>::empty());
    }
    while i < state.peers.len()
        invariant
            0 <= i <= pv.len(),
            pv == peers_view(state.peers@),
            removed == peers_view(remove_peers@),
            peers_view(kept@) == spec_remove_peers(pv.take(i as int), removed),
        decreases pv.len() - i,
    {
        proof {
            assert(pv.take(i + 1).drop_last() =~= pv.take(i as int));
            assert(pv.take(i + 1).last() == pv[i as int]);
        }
        let mut found = false;
        let mut j: usize = 0;
        while j < remove_peers.len()
            invariant
                0 <= j <= remove_peers@.len(),
                0 <= i < pv.len(),
                pv == peers_view(state.peers@),
                found == exists|k: int| 0 <= k < j && #[trigger] remove_peers@[k]@ == state.peers@[i as int]@,
            decreases remove_peers@.len() - j,
        {
            if same_peer(&remove_peers[j], &state.peers[i]) {
                found = true;
            }
            j = j + 1;
        }
        proof {
            assert(found == removed.contains(pv[i as int])) by {
                if found {
                    let k = choose|k: int| 0 <= k < remove_peers@.len() && #[trigger] remove_peers@[k]@
                        == state.peers@[i as int]@;
                    assert(removed[k] == pv[i as int]);
                }
                if removed.contains(pv[i as int]) {
                    let k = choose|k: int| 0 <= k < removed.len() && removed[k] == pv[i as int];
                    assert(remove_peers@[k]@ == state.peers@[i as int]@);
                }
            }
        }
        if !found {
            let c = state.peers[i].clone();
            let ghost before = kept@;
            kept.push(c);
            proof {
                assert(peers_view(kept@) =~= peers_view(before).push(pv[i as int]));
            }
        }
        i = i + 1;
    }
    proof {
        assert(pv.take(pv.len() as int) =~= pv);
    }
    state.peers = kept;
    (state, Effect::Nothing)
}

/// Makes the node's own payment of `send_amount` to `recipient` with the
/// given fee, and puts it into the pool.
#[verifier::rlimit(50)]
pub fn handle_add_transaction(state: State, recipient: &Address, send_amount: u64, fee: u64) -> (r: (
    State,
    Effect,
))
    requires
        spec_ids_fit(state.chain@),
    ensures
        (r.0@, r.1@) == spec_handle_add_transaction(state@, recipient@, send_amount, fee),
{
    let mut state = state;
    if !is_valid_address(recipient) {
        return (state, Effect::Nothing);
    }
    let amount = match send_amount.checked_add(fee) {
        Some(a) => a,
        None => {
            return (state, Effect::Nothing);
        },
    };
    let inputs = state.chain.payment_inputs(&state.address, state.transactions.as_slice(), amount);
    if checked_sum_amounts(&inputs).is_none() {
        return (state, Effect::Nothing);
    }
    match state.chain.generate_transaction(
        &state.address,
        recipient,
        send_amount,
        &state.secret_key,
        state.transactions.as_slice(),
        fee,
    ) {
        Some(transaction) => {
            let changed = state.add_transaction_to_pool(&transaction);
            let ghost t = transaction@;
            let mut sent: Vec<Transaction> = Vec::new();
            sent.push(transaction);
            proof {
                assert(txs_view(sent@) =~= seq![t]);
            }
            (state, when_changed(Effect::Broadcast(P2PMessage::ResponseTransactions(sent)), changed))
        },
        None => (state, Effect::Nothing),
    }
}

/// Hands the pending transactions with the highest fees to the miner.
pub fn handle_mine_block(state: State) -> (r: (State, Effect))
    ensures
        (r.0@, r.1@) == spec_handle_mine_block(state@),
{
    let mut state = state;
    let sorted = order_for_mining(&state.transactions);
    let ghost o = txs_view(sorted@);
    let n = sorted.len();
    let k = if MAX_TRANSACTIONS_PER_BLOCK < n {
        MAX_TRANSACTIONS_PER_BLOCK
    } else {
        n
    };
    let mut mined: Vec<Transaction> = Vec::new();
    let mut i: usize = 0;
    while i < k
        invariant
            0 <= i <= k <= n,
            n == o.len(),
            o == txs_view(sorted@),
            txs_view(mined@) == o.take(i as int),
            mined@.len() == i,
        decreases k - i,
    {
        let c = sorted[i].clone();
        let ghost before = mined@;
        mined.push(c);
        proof {
            assert(mined@ == before.push(c));
            assert(txs_view(mined@) =~= o.take(i + 1));
        }
        i = i + 1;
    }
    let mut remaining: Vec<Transaction> = Vec::new();
    while i < n
        invariant
            k <= i <= n,
            n == o.len(),
            o == txs_view(sorted@),
            txs_view(remaining@) == o.subrange(k as int, i as int),
            remaining@.len() == i - k,
        decreases n - i,
    {
        let c = sorted[i].clone();
        let ghost before = remaining@;
        remaining.push(c);
        proof {
            assert(remaining@ == before.push(c));
            assert(txs_view(remaining@) =~= o.subrange(k as int, i + 1));
        }
        i = i + 1;
    }
    proof {
        assert(o.subrange(k as int, n as int) =~= o.skip(k as int));
    }
    state.transactions = remaining;
    (state, Effect::MineBlock(mined))
}

/// A block that this node mined: where the chain takes it, it goes out to
/// the peers.
pub fn handle_completed_mine_block<C: BeaconCache>(state: State, cache: &C, new_block: Block) -> (r: (
    State,
    Effect,
))
    requires
        spec_ids_fit(state.chain@),
    ensures
        (r.0@, r.1@) == spec_handle_completed_mine_block(state@, new_block@, cache.beacons()),
{
    let mut state = state;
    let (chain, changed) = state.chain.add_block(new_block.clone(), true, true, cache);
    state.chain = chain;
    let ghost b = new_block@;
    let mut sent: Vec<Block> = Vec::new();
    sent.push(new_block);
    proof {
        assert(crate::chain::blocks_view(sent@) =~= seq![b]);
    }
    (state, when_changed(Effect::Broadcast(P2PMessage::ResponseBlockChain(sent)), changed))
}

/// Blocks from a peer; see `spec_handle_response_block_chain`.
pub fn handle_response_block_chain<C: BeaconCache>(state: State, blocks: Vec<Block>, cache: &C) -> (r: (
    State,
    Effect,
))
    requires
        spec_ids_fit(state.chain@),
    ensures
        (r.0@, r.1@) == spec_handle_response_block_chain(
            state@,
            crate::chain::blocks_view(blocks@),
            cache.beacons(),
        ),
{
    let mut state = state;
    if blocks.len() == 0 {
        return (state, Effect::Nothing);
    }
    let received = blocks[blocks.len() - 1].clone();
    let held = state.chain.get_latest_block();
    if received.index > held.index {
        if hashes_equal(&received.previous_hash, &held.hash) {
            let (chain, changed) = state.chain.add_block(received.clone(), false, true, cache);
            state.chain = chain;
            let ghost b = received@;
            let mut sent: Vec<Block> = Vec::new();
            sent.push(received);
            proof {
                assert(crate::chain::blocks_view(sent@) =~= seq![b]);
            }
            (state, when_changed(Effect::Broadcast(P2PMessage::ResponseBlockChain(sent)), changed))
        } else {
            (state, Effect::Broadcast(P2PMessage::QueryAll))
        }
    } else {
        (state, Effect::Nothing)
    }
}

/// Transactions from a peer; see `spec_handle_response_transactions`.
pub fn handle_response_transactions(state: State, transactions: Vec<Transaction>) -> (r: (State, Effect))
    requires
        spec_ids_fit(state.chain@),
    ensures
        (r.0@, r.1@) == spec_handle_response_transactions(state@, txs_view(transactions@)),
{
    let mut state = state;
    let ghost start = state@;
    let ghost txs = txs_view(transactions@);
    let mut changed = false;
    let mut i: usize = 0;
    proof {
        assert(txs.skip(0) =~= txs);
    }
    while i < transactions.len()
        invariant
            0 <= i <= txs.len(),
            txs == txs_view(transactions@),
            start.chain == state@.chain,
            spec_ids_fit(state.chain@),
            !changed ==> state@ == start && spec_first_accepted(start.chain, start.transactions, txs)
                == spec_first_accepted(start.chain, start.transactions, txs.skip(i as int)),
            changed ==> (match spec_first_accepted(start.chain, start.transactions, txs) {
                Some(t) => state@ == StateView { transactions: start.transactions.push(t), ..start },
                None => false,
            }),
        decreases txs.len() - i,
    {
        proof {
            assert(txs.skip(i as int).drop_first() =~= txs.skip(i + 1));
            assert(txs.skip(i as int)[0] == transactions@[i as int]@);
        }
        if !changed {
            changed = state.add_transaction_to_pool(&transactions[i]);
        }
        i = i + 1;
    }
    let pool = clone_txs(&state.transactions);
    (state, when_changed(Effect::Broadcast(P2PMessage::ResponseTransactions(pool)), changed))
}

/// A peer asks for our peers; see `spec_handle_query_peers`.
pub fn handle_query_peers(state: State, peer_option: Option<Peer>) -> (r: (State, Effect))
    ensures
        (r.0@, r.1@) == spec_handle_query_peers(
            state@,
            match peer_option {
                Some(p) => Some(p@),
                None => None,
            },
        ),
{
    let mut state = state;
    let known = clone_peers(&state.peers);
    match peer_option {
        Some(peer) => {
            let ghost p = peer@;
            let mut offered: Vec<Peer> = Vec::new();
            offered.push(peer);
            proof {
                assert(peers_view(offered@) =~= seq![p]);
            }
            state.add_peers(offered.as_slice());
        },
        None => {},
    }
    (state, Effect::Broadcast(P2PMessage::ResponsePeers(known)))
}

/// Peers from a peer; see `spec_handle_response_peers`.
pub fn handle_response_peers(state: State, peers: Vec<Peer>) -> (r: (State, Effect))
    ensures
        (r.0@, r.1@) == spec_handle_response_peers(state@, peers_view(peers@)),
{
    let mut state = state;
    let changed = state.add_peers(peers.as_slice());
    let now = clone_peers(&state.peers);
    (state, when_changed(Effect::Broadcast(P2PMessage::ResponsePeers(now)), changed))
}

/// A message from a peer; see `spec_handle_p2p_message`.
pub fn handle_p2p_message<C: BeaconCache>(
    state: State,
    cache: &C,
    peer_option: Option<Peer>,
    message: P2PMessage,
) -> (r: (State, Effect))
    requires
        spec_ids_fit(state.chain@),
    ensures
        (r.0@, r.1@) == spec_handle_p2p_message(
            state@,
            match peer_option {
                Some(p) => Some(p@),
                None => None,
            },
            message@,
            cache.beacons(),
        ),
{
    match message {
        P2PMessage::QueryAll => {
            let blocks = clone_blocks(&state.chain.blocks);
            (state, Effect::Broadcast(P2PMessage::ResponseBlockChain(blocks)))
        },
        P2PMessage::QueryLatest => {
            let latest = state.chain.get_latest_block();
            let ghost b = latest@;
            let mut blocks: Vec<Block> = Vec::new();
            blocks.push(latest);
            proof {
                assert(crate::chain::blocks_view(blocks@) =~= seq![b]);
            }
            (state, Effect::Broadcast(P2PMessage::ResponseBlockChain(blocks)))
        },
        P2PMessage::ResponseBlockChain(blocks) => handle_response_block_chain(state, blocks, cache),
        P2PMessage::QueryTransactions => {
            let pool = clone_txs(&state.transactions);
            (state, Effect::Broadcast(P2PMessage::ResponseTransactions(pool)))
        },
        P2PMessage::ResponseTransactions(transactions) => handle_response_transactions(
            state,
            transactions,
        ),
        P2PMessage::QueryPeers => handle_query_peers(state, peer_option),
        P2PMessage::ResponsePeers(peers) => handle_response_peers(state, peers),
    }
}

/// The node's step: handles an event and says what to do next.
pub fn update<C: BeaconCache>(event: Event, state: State, cache: &C) -> (r: (State, Effect))
    requires
        spec_ids_fit(state.chain@),
    ensures
        (r.0@, r.1@) == spec_update(state@, event@, cache.beacons()),
        spec_ids_fit(r.0.chain@),
{
    proof {
        lemma_update_keeps_ids_fit(state@, event@, cache.beacons());
    }
    match event {
        Event::AddPeer(peer) => handle_add_peer(state, peer),
        Event::RemovePeers(peers) => handle_remove_peers(state, peers),
        Event::AddTransaction(recipient, send_amount, fee) => handle_add_transaction(
            state,
            &recipient,
            send_amount,
            fee,
        ),
        Event::MineBlock => handle_mine_block(state),
        Event::CompletedMineBlock(new_block) => handle_completed_mine_block(state, cache, new_block),
        Event::P2PMessage(peer_option, message) => handle_p2p_message(state, cache, peer_option, message),
    }
}

/// Every step keeps the ids that the chain hands out within 64 bits.
pub proof fn lemma_update_keeps_ids_fit(s: StateView, e: EventView, beacons: Map<BeaconKey, Seq<i32>>)
    requires
        spec_ids_fit(s.chain),
    ensures
        spec_ids_fit(spec_update(s, e, beacons).0.chain),
{
}

/// No step changes the node's key or address.
pub proof fn lemma_update_keeps_identity(s: StateView, e: EventView, beacons: Map<BeaconKey, Seq<i32>>)
    ensures
        spec_update(s, e, beacons).0.secret_key == s.secret_key,
        spec_update(s, e, beacons).0.address == s.address,
{
}

/// The node's own payment enters the pool and goes out to its peers: where
/// its key is the one of its address, signs every message and is sound,
/// the recipient's address is well formed, something is paid, the amounts
/// fit and the spendable outputs cover the amount and the fee.
pub proof fn lemma_own_payment_enters_pool(s: StateView, recipient: Seq<char>, send_amount: u64, fee: u64)
    requires
        spec_ids_fit(s.chain),
        spec_public_key_of(s.secret_key) == Some(s.address),
        spec_key_signs(s.secret_key),
        spec_key_sound(s.secret_key),
        spec_is_valid_address(recipient),
        0 < send_amount + fee <= u64::MAX,
        spec_sum_utxos(spec_payment_inputs(s.chain, s.address, s.transactions, (send_amount + fee) as u64))
            <= u64::MAX,
        spec_sum_utxos(spec_spendable(s.chain, s.address, s.transactions)) >= send_amount + fee,
    ensures
        spec_generated_tx(s.chain, s.address, recipient, send_amount, s.secret_key, s.transactions, fee) is Some,
        ({
            let t = spec_generated_tx(s.chain, s.address, recipient, send_amount, s.secret_key, s.transactions, fee)->0;
            spec_handle_add_transaction(s, recipient, send_amount, fee) == (
                StateView { transactions: s.transactions.push(t), ..s },
                EffectView::Broadcast(MessageView::ResponseTransactions(seq![t])),
            )
        }),
{
    let amount = (send_amount + fee) as u64;
    reveal(spec_payment_inputs);
    reveal(spec_generated_tx);
    lemma_flex_nonempty(amount, spec_spendable(s.chain, s.address, s.transactions));
    let sel = spec_payment_inputs(s.chain, s.address, s.transactions, amount);
    let outs = spec_payment_outs(s.address, recipient, send_amount, fee, spec_sum_utxos(sel));
    let msg = crate::encoding::enc_tx_body(s.address, outs, spec_inputs_for(sel), fee);
    assert(spec_sign(s.secret_key, msg) is Some);
    lemma_own_payment_accepted(s.chain, s.address, recipient, send_amount, s.secret_key, s.transactions, fee);
}

/// Dropping peers keeps some of the others, in their order, and none of
/// the dropped ones.
pub proof fn lemma_remove_peers(peers: Seq<Seq<char>>, removed: Seq<Seq<char>>)
    ensures
        spec_remove_peers(peers, removed).len() <= peers.len(),
        forall|i: int|
            0 <= i < spec_remove_peers(peers, removed).len() ==> peers.contains(
                #[trigger] spec_remove_peers(peers, removed)[i],
            ) && !removed.contains(spec_remove_peers(peers, removed)[i]),
        peers.no_duplicates() ==> spec_remove_peers(peers, removed).no_duplicates(),
    decreases peers.len(),
{
    if peers.len() > 0 {
        let rest = peers.drop_last();
        let last = peers.last();
        lemma_remove_peers(rest, removed);
        let r = spec_remove_peers(rest, removed);
        assert forall|i: int| 0 <= i < r.len() implies peers.contains(#[trigger] r[i]) by {
            let m = choose|m: int| 0 <= m < rest.len() && rest[m] == r[i];
            assert(peers[m] == rest[m]);
        }
        if !removed.contains(last) {
            let r2 = r.push(last);
            assert forall|i: int| 0 <= i < r2.len() implies peers.contains(#[trigger] r2[i])
                && !removed.contains(r2[i]) by {
                if i < r.len() {
                    assert(r2[i] == r[i]);
                } else {
                    assert(peers[peers.len() - 1] == last);
                }
            }
            if peers.no_duplicates() {
                assert(rest.no_duplicates()) by {
                    assert forall|i: int, j: int| 0 <= i < rest.len() && 0 <= j < rest.len() && i != j
                        implies rest[i] != rest[j] by {
                        assert(rest[i] == peers[i]);
                        assert(rest[j] == peers[j]);
                    }
                }
                assert forall|i: int, j: int| 0 <= i < r2.len() && 0 <= j < r2.len() && i != j implies r2[i]
                    != r2[j] by {
                    if i == r.len() || j == r.len() {
                        let o = if i == r.len() {
                            j
                        } else {
                            i
                        };
                        assert(r2[o] == r[o]);
                        let m = choose|m: int| 0 <= m < rest.len() && rest[m] == r[o];
                        assert(peers[m] == rest[m]);
                        assert(peers[peers.len() - 1] == last);
                    } else {
                        assert(r2[i] == r[i]);
                        assert(r2[j] == r[j]);
                    }
                }
            }
        } else {
            if peers.no_duplicates() {
                assert(rest.no_duplicates()) by {
                    assert forall|i: int, j: int| 0 <= i < rest.len() && 0 <= j < rest.len() && i != j
                        implies rest[i] != rest[j] by {
                        assert(rest[i] == peers[i]);
                        assert(rest[j] == peers[j]);
                    }
                }
            }
        }
    }
}

/// Every step keeps the known peers distinct and at most one more than the
/// limit.
pub proof fn lemma_update_keeps_peers(s: StateView, e: EventView, beacons: Map<BeaconKey, Seq<i32>>)
    requires
        s.peers.no_duplicates(),
        s.peers.len() <= MAX_PEERS + 1,
    ensures
        spec_update(s, e, beacons).0.peers.no_duplicates(),
        spec_update(s, e, beacons).0.peers.len() <= MAX_PEERS + 1,
{
    match e {
        EventView::AddPeer(p) => {
            lemma_add_peers_distinct(s.peers, seq![p]);
            lemma_add_peers_bounded(s.peers, seq![p]);
        },
        EventView::RemovePeers(ps) => {
            lemma_remove_peers(s.peers, ps);
        },
        EventView::P2PMessage(peer, m) => {
            match m {
                MessageView::QueryPeers => {
                    match peer {
                        Some(p) => {
                            lemma_add_peers_distinct(s.peers, seq![p]);
                            lemma_add_peers_bounded(s.peers, seq![p]);
                        },
                        None => {},
                    }
                },
                MessageView::ResponsePeers(ps) => {
                    lemma_add_peers_distinct(s.peers, ps);
                    lemma_add_peers_bounded(s.peers, ps);
                },
                _ => {},
            }
        },
        _ => {},
    }
}

proof fn lemma_first_accepted_accepts(chain: Seq<BlockView>, pool: Seq<TxView>, txs: Seq<TxView>)
    ensures
        spec_first_accepted(chain, pool, txs) matches Some(t) ==> spec_pool_accepts(chain, pool, t),
    decreases txs.len(),
{
    if txs.len() > 0 && !spec_pool_accepts(chain, pool, txs[0]) {
        lemma_first_accepted_accepts(chain, pool, txs.drop_first());
    }
}

/// Every step keeps the pool free of two pending transactions that spend
/// the same output.
pub proof fn lemma_update_keeps_pool_disjoint(s: StateView, e: EventView, beacons: Map<BeaconKey, Seq<i32>>)
    requires
        spec_pool_disjoint(s.transactions),
    ensures
        spec_pool_disjoint(spec_update(s, e, beacons).0.transactions),
{
    match e {
        EventView::AddTransaction(recipient, send_amount, fee) => {
            match spec_generated_tx(s.chain, s.address, recipient, send_amount, s.secret_key, s.transactions, fee) {
                Some(t) => {
                    if spec_pool_accepts(s.chain, s.transactions, t) {
                        lemma_pool_stays_disjoint(s.chain, s.transactions, t);
                    }
                },
                None => {},
            }
        },
        EventView::MineBlock => {
            let order = spec_mining_order(s.transactions);
            let k = spec_mined_count(order.len() as int);
            lemma_mining_order(s.transactions);
            lemma_mining_order_disjoint(s.transactions, k, order.len() as int);
            assert(order.skip(k) =~= order.subrange(k, order.len() as int));
        },
        EventView::P2PMessage(peer, m) => {
            match m {
                MessageView::ResponseTransactions(txs) => {
                    lemma_first_accepted_accepts(s.chain, s.transactions, txs);
                    match spec_first_accepted(s.chain, s.transactions, txs) {
                        Some(t) => {
                            lemma_pool_stays_disjoint(s.chain, s.transactions, t);
                        },
                        None => {},
                    }
                },
                _ => {},
            }
        },
        _ => {},
    }
}

/// Mining hands out the pending transactions with the highest fees, at most
/// a block's worth, highest first; what is handed out and what stays pending
/// are together exactly the pending transactions, and nothing that stays
/// pays a higher fee than anything handed out.
pub proof fn lemma_mine_block_split(s: StateView)
    ensures
        ({
            let (next, effect) = spec_handle_mine_block(s);
            &&& effect matches EffectView::MineBlock(mined) && {
                &&& (mined + next.transactions).to_multiset() == s.transactions.to_multiset()
                &&& fees_descending(mined)
                &&& mined.len() == spec_mined_count(s.transactions.len() as int)
                &&& forall|i: int, j: int|
                    0 <= i < mined.len() && 0 <= j < next.transactions.len() ==> #[trigger] mined[i].fee
                        >= #[trigger] next.transactions[j].fee
            }
            &&& next.chain == s.chain
            &&& next.peers == s.peers
        }),
{
    lemma_mining_order(s.transactions);
    let order = spec_mining_order(s.transactions);
    let k = spec_mined_count(order.len() as int);
    let mined = order.take(k);
    let rest = order.skip(k);
    assert(mined + rest =~= order);
    assert forall|i: int, j: int| 0 <= i < mined.len() && 0 <= j < rest.len() implies #[trigger] mined[i].fee
        >= #[trigger] rest[j].fee by {
        assert(mined[i] == order[i]);
        assert(rest[j] == order[k + j]);
    }
}

/// The events a node starts with: mining first where it mines, then each
/// configured peer offered in turn.
pub open spec fn spec_initial_events(mining: bool, peers: Seq<Seq<char>>) -> Seq<EventView> {
    let first: Seq<EventView> = if mining {
        seq![EventView::MineBlock]
    } else {
        Seq::empty()
    };
    first + peers.map_values(|p: Seq<char>| EventView::AddPeer(p))
}

/// The events a node starts with; see `spec_initial_events`.
pub fn initial_events(config: &Config) -> (r: Vec<Event>)
    ensures
        r@.map_values(|e: Event| e@) == spec_initial_events(
            config.mining,
            config.peer@.map_values(|p: String| p@),
        ),
{
    let ghost peers = config.peer@.map_values(|p: String| p@);
    let mut r: Vec<Event> = Vec::new();
    if config.mining {
        r.push(Event::MineBlock);
    }
    let ghost first = r@.map_values(|e: Event| e@);
    let mut i: usize = 0;
    while i < config.peer.len()
        invariant
            0 <= i <= config.peer@.len(),
            peers == config.peer@.map_values(|p: String| p@),
            first == (if config.mining {
                seq![EventView::MineBlock]
            } else {
                Seq::<EventView>::empty()
            }),
            r@.map_values(|e: Event| e@) == first + peers.take(i as int).map_values(
                |p: Seq<char>| EventView::AddPeer(p),
            ),
        decreases config.peer@.len() - i,
    {
        let peer = Peer::new(config.peer[i].as_str());
        let ghost before = r@;
        let ghost pv = peer@;
        let event = Event::AddPeer(peer);
        assert(event@ == EventView::AddPeer(pv));
        r.push(event);
        proof {
            assert(pv == peers[i as int]);
            assert(r@.map_values(|e: Event| e@) =~= before.map_values(|e: Event| e@).push(
                EventView::AddPeer(pv),
            ));
            assert(peers.take(i + 1) =~= peers.take(i as int).push(peers[i as int]));
            assert(r@.map_values(|e: Event| e@) =~= first + peers.take(i + 1).map_values(
                |p: Seq<char>| EventView::AddPeer(p),
            ));
        }
        i = i + 1;
    }
    proof {
        assert(peers.take(peers.len() as int) =~= peers);
    }
    r
}

/// The beacon keys that handling these blocks from a peer will look up; see
/// `spec_prefetch_keys`.
pub fn beacon_keys_to_prefetch(chain: &Chain, blocks: &[Block]) -> (r: Vec<BeaconKey>)
    ensures
        r@ == spec_prefetch_keys(chain@, crate::chain::blocks_view(blocks@)),
{
    let ghost bv = crate::chain::blocks_view(blocks@);
    let mut r: Vec<BeaconKey> = Vec::new();
    if blocks.len() == 0 {
        return r;
    }
    let n = blocks.len();
    let held = chain.get_latest_block();
    proof {
        assert(bv.last() == blocks@[n - 1]@);
    }
    if blocks[n - 1].index <= held.index {
        return r;
    }
    if hashes_equal(&blocks[n - 1].previous_hash, &held.hash) {
        r.push(BeaconKey::new(&held.hash, blocks[n - 1].timestamp));
        proof {
            assert(r@ =~= spec_prefetch_keys(chain@, bv));
        }
        return r;
    }
    if n == 1 {
        return r;
    }
    let start = if n > CHECKPOINT_DEPTH + 1 {
        n - (CHECKPOINT_DEPTH + 1)
    } else {
        0
    };
    let mut i: usize = start;
    while i + 1 < n
        invariant
            start <= i <= n - 1,
            n == blocks@.len(),
            n >= 2,
            bv == crate::chain::blocks_view(blocks@),
            start == (if n > CHECKPOINT_DEPTH + 1 {
                n - (CHECKPOINT_DEPTH + 1)
            } else {
                0
            }),
            r@ == spec_window_keys(bv).take(i - start),
        decreases n - i,
    {
        r.push(BeaconKey::new(&blocks[i].hash, blocks[i + 1].timestamp));
        proof {
            assert(bv[i as int] == blocks@[i as int]@);
            assert(bv[i + 1] == blocks@[i + 1]@);
            assert(r@ =~= spec_window_keys(bv).take(i + 1 - start));
        }
        i = i + 1;
    }
    proof {
        assert(spec_window_keys(bv).take(n - 1 - start) =~= spec_window_keys(bv));
    }
    r
}

/// The keys among `keys` under which the store holds no beacon yet, in
/// their order.
pub fn missing_beacon_keys<C: BeaconCache>(cache: &C, keys: &Vec<BeaconKey>) -> (r: Vec<BeaconKey>)
    ensures
        r@ == keys@.filter(|k: BeaconKey| !cache.beacons().contains_key(k)),
{
    let mut r: Vec<BeaconKey> = Vec::new();
    let mut i: usize = 0;
    while i < keys.len()
        invariant
            0 <= i <= keys@.len(),
            r@ == keys@.take(i as int).filter(|k: BeaconKey| !cache.beacons().contains_key(k)),
        decreases keys@.len() - i,
    {
        proof {
            assert(keys@.take(i + 1).drop_last() =~= keys@.take(i as int));
        }
        let found = cache.get(&keys[i]);
        if found.is_none() {
            r.push(keys[i]);
        }
        proof {
            reveal(Seq::filter);
            assert(keys@.take(i + 1).last() == keys@[i as int]);
        }
        i = i + 1;
    }
    proof {
        assert(keys@.take(keys@.len() as int) =~= keys@);
    }
    r
}

} // verus!
