use vstd::prelude::*;

use crate::block::BlockView;
use crate::chain::Chain;
use crate::key::{spec_public_key_of, Address, SK};
use crate::p2p::{peers_view, same_peer, Peer};
use crate::transaction::{txs_view, Transaction, TxView};
use crate::utxo_state::{
    ids_contain, spec_chain_utxos, spec_filter_ids, spec_ids_fit, spec_tx_ids, spec_txs_ids,
    transaction_to_unspent_ids, transactions_to_unspent_ids,
};
use crate::validation::spec_tx_valid;

verus! {

/// A node keeps at most one more peer than this.
pub const MAX_PEERS: usize = 64;

/// What a node holds: its key and address, its chain, the transactions
/// waiting for a block, and the peers it knows.
#[derive(Debug, PartialEq)]
pub struct State {
    pub secret_key: SK,
    pub address: Address,
    pub chain: Chain,
    pub transactions: Vec<Transaction>,
    pub peers: Vec<Peer>,
}

impl Clone for State {
    fn clone(&self) -> (r: Self)
        ensures
            r@ == self@,
    {
        State {
            secret_key: self.secret_key.clone(),
            address: self.address.clone(),
            chain: self.chain.clone(),
            transactions: crate::transaction::clone_txs(&self.transactions),
            peers: crate::p2p::clone_peers(&self.peers),
        }
    }
}

/// A node's state as the contracts see it.
pub struct StateView {
    pub secret_key: Seq<char>,
    pub address: Seq<char>,
    pub chain: Seq<BlockView>,
    pub transactions: Seq<TxView>,
    pub peers: Seq<Seq<char>>,
}

impl View for State {
    type V = StateView;

    open spec fn view(&self) -> StateView {
        StateView {
            secret_key: self.secret_key@,
            address: self.address@,
            chain: self.chain@,
            transactions: txs_view(self.transactions@),
            peers: peers_view(self.peers@),
        }
    }
}

/// Whether a pending transaction is taken into a pool: it is valid over the
/// chain's unspent outputs, each of its inputs names one of them, and no
/// transaction already in the pool spends any of them.
#[verifier::opaque]
pub open spec fn spec_pool_accepts(chain: Seq<BlockView>, pool: Seq<TxView>, tx: TxView) -> bool {
    let utxos = spec_chain_utxos(chain).0;
    &&& spec_tx_valid(tx, utxos)
    &&& spec_filter_ids(utxos, spec_tx_ids(tx)).len() == spec_tx_ids(tx).len()
    &&& forall|k: int| 0 <= k < tx.tx_in.len() ==> !spec_txs_ids(pool).contains(#[trigger] tx.tx_in[k].unspent_id)
}

/// The peers after one more is offered: it is taken where it is new and
/// there is room.
pub open spec fn spec_add_peer(peers: Seq<Seq<char>>, p: Seq<char>) -> Seq<Seq<char>> {
    if !peers.contains(p) && peers.len() <= MAX_PEERS {
        peers.push(p)
    } else {
        peers
    }
}

/// The peers after some are offered, one after the other.
pub open spec fn spec_add_peers(peers: Seq<Seq<char>>, offered: Seq<Seq<char>>) -> Seq<Seq<char>>
    decreases offered.len(),
{
    if offered.len() == 0 {
        peers
    } else {
        spec_add_peer(spec_add_peers(peers, offered.drop_last()), offered.last())
    }
}

/// Whether two transactions spend no output in common.
pub open spec fn share_no_input(a: TxView, b: TxView) -> bool {
    forall|k: int, l: int|
        0 <= k < a.tx_in.len() && 0 <= l < b.tx_in.len() ==> #[trigger] a.tx_in[k].unspent_id
            != #[trigger] b.tx_in[l].unspent_id
}

/// No two transactions of a pool spend the same output.
pub open spec fn spec_pool_disjoint(pool: Seq<TxView>) -> bool {
    forall|i: int, j: int| 0 <= i < j < pool.len() ==> share_no_input(#[trigger] pool[i], #[trigger] pool[j])
}

impl State {
    /// The state of a node with this key and chain, no pending transactions
    /// and no peers; `None` where the key yields no address.
    pub fn new(secret_key: SK, chain: Chain) -> (r: Option<Self>)
        ensures
            match r {
                Some(s) => {
                    &&& spec_public_key_of(secret_key@) == Some(s.address@)
                    &&& s@.secret_key == secret_key@
                    &&& s@.chain == chain@
                    &&& s@.transactions.len() == 0
                    &&& s@.peers.len() == 0
                },
                None => spec_public_key_of(secret_key@) is None,
            },
    {
        match secret_key.to_pk() {
            Some(address) => Some(
                State { secret_key, address, chain, transactions: Vec::new(), peers: Vec::new() },
            ),
            None => None,
        }
    }

    fn add_transaction_to_pool_without_validation(&mut self, transaction: &Transaction)
        ensures
            final(self)@ == (StateView {
                transactions: old(self)@.transactions.push(transaction@),
                ..old(self)@
            }),
    {
        let ghost before = self.transactions@;
        self.transactions.push(transaction.clone());
        proof {
            assert(txs_view(self.transactions@) =~= txs_view(before).push(transaction@));
        }
    }

    /// Takes a transaction into the pool where it is accepted, and tells
    /// whether it was.
    pub fn add_transaction_to_pool(&mut self, transaction: &Transaction) -> (r: bool)
        requires
            spec_ids_fit(old(self).chain@),
        ensures
            r == spec_pool_accepts(old(self)@.chain, old(self)@.transactions, transaction@),
            r ==> final(self)@ == (StateView {
                transactions: old(self)@.transactions.push(transaction@),
                ..old(self)@
            }),
            !r ==> final(self)@ == old(self)@,
    {
        proof {
            reveal(spec_pool_accepts);
        }
        let tx_in_ids = transaction_to_unspent_ids(transaction);
        let state_tx_in_ids = transactions_to_unspent_ids(self.transactions.as_slice());
        let (unspent_transactions, _) = self.chain.get_unspent_transactions();
        let is_valid = transaction.is_valid(unspent_transactions.as_slice());
        let inputs_exist = self.chain.find_unspent_transactions(tx_in_ids.as_slice()).len()
            == tx_in_ids.len();
        let mut double_spent_in_pool = false;
        let mut i: usize = 0;
        while i < tx_in_ids.len()
            invariant
                0 <= i <= tx_in_ids@.len(),
                tx_in_ids@ == spec_tx_ids(transaction@),
                state_tx_in_ids@ == spec_txs_ids(txs_view(self.transactions@)),
                double_spent_in_pool == exists|k: int|
                    0 <= k < i && state_tx_in_ids@.contains(#[trigger] tx_in_ids@[k]),
            decreases tx_in_ids@.len() - i,
        {
            if ids_contain(&state_tx_in_ids, tx_in_ids[i]) {
                double_spent_in_pool = true;
            }
            i = i + 1;
        }
        proof {
            let ids = spec_tx_ids(transaction@);
            let pool = spec_txs_ids(txs_view(self.transactions@));
            if double_spent_in_pool {
                let k = choose|k: int| 0 <= k < i && state_tx_in_ids@.contains(#[trigger] tx_in_ids@[k]);
                assert(ids[k] == transaction@.tx_in[k].unspent_id);
                assert(pool.contains(transaction@.tx_in[k].unspent_id));
            } else {
                assert forall|k: int| 0 <= k < transaction@.tx_in.len() implies !pool.contains(
                    #[trigger] transaction@.tx_in[k].unspent_id,
                ) by {
                    assert(ids[k] == transaction@.tx_in[k].unspent_id);
                    assert(!state_tx_in_ids@.contains(tx_in_ids@[k]));
                }
            }
        }
        if !is_valid || !inputs_exist || double_spent_in_pool {
            return false;
        }
        self.add_transaction_to_pool_without_validation(transaction);
        true
    }

    /// Offers each of `new_peers` in turn; a peer is taken where it is not
    /// known yet and there is room. Tells whether any was taken.
    pub fn add_peers(&mut self, new_peers: &[Peer]) -> (r: bool)
        ensures
            final(self)@ == (StateView {
                peers: spec_add_peers(old(self)@.peers, peers_view(new_peers@)),
                ..old(self)@
            }),
            r == (final(self)@.peers.len() > old(self)@.peers.len()),
    {
        let ghost old_peers = peers_view(self.peers@);
        let ghost start = self@;
        let ghost offered = peers_view(new_peers@);
        let mut added = false;
        let mut i: usize = 0;
        proof {
            assert(offered.take(0) =~= Seq::<Seq<char>>::empty());
        }
        while i < new_peers.len()
            invariant
                0 <= i <= offered.len(),
                offered == peers_view(new_peers@),
                peers_view(self.peers@) == spec_add_peers(old_peers, offered.take(i as int)),
                added == (peers_view(self.peers@).len() > old_peers.len()),
                peers_view(self.peers@).len() >= old_peers.len(),
                self@ == (StateView { peers: peers_view(self.peers@), ..start }),
            decreases offered.len() - i,
        {
            proof {
                assert(offered.take(i + 1).drop_last() =~= offered.take(i as int));
                assert(offered.take(i + 1).last() == new_peers@[i as int]@);
            }
            let new_peer = &new_peers[i];
            let mut known = false;
            let mut j: usize = 0;
            while j < self.peers.len()
                invariant
                    0 <= j <= self.peers@.len(),
                    known == exists|k: int| 0 <= k < j && #[trigger] self.peers@[k]@ == new_peer@,
                decreases self.peers@.len() - j,
            {
                if same_peer(&self.peers[j], new_peer) {
                    known = true;
                }
                j = j + 1;
            }
            proof {
                let pv = peers_view(self.peers@);
                assert(known == pv.contains(new_peer@)) by {
                    if pv.contains(new_peer@) {
                        let k = choose|k: int| 0 <= k < pv.len() && pv[k] == new_peer@;
                        assert(self.peers@[k]@ == new_peer@);
                    }
                    if known {
                        let k = choose|k: int| 0 <= k < self.peers@.len() && #[trigger] self.peers@[k]@ == new_peer@;
                        assert(pv[k] == new_peer@);
                    }
                }
            }
            if !known && self.peers.len() <= MAX_PEERS {
                let ghost before = self.peers@;
                self.peers.push(new_peer.clone());
                proof {
                    assert(peers_view(self.peers@) =~= peers_view(before).push(new_peer@));
                }
                added = true;
            }
            i = i + 1;
        }
        proof {
            assert(offered.take(offered.len() as int) =~= offered);
        }
        added
    }
}

/// Offering peers never gives the same address twice, where there was
/// none twice before.
pub proof fn lemma_add_peers_distinct(peers: Seq<Seq<char>>, offered: Seq<Seq<char>>)
    requires
        peers.no_duplicates(),
    ensures
        spec_add_peers(peers, offered).no_duplicates(),
    decreases offered.len(),
{
    if offered.len() > 0 {
        lemma_add_peers_distinct(peers, offered.drop_last());
        let before = spec_add_peers(peers, offered.drop_last());
        let p = offered.last();
        if !before.contains(p) && before.len() <= MAX_PEERS {
            assert forall|i: int, j: int|
                0 <= i < before.push(p).len() && 0 <= j < before.push(p).len() && i != j implies
                before.push(p)[i] != before.push(p)[j] by {
                if i == before.len() as int {
                    assert(before.push(p)[j] == before[j]);
                } else if j == before.len() as int {
                    assert(before.push(p)[i] == before[i]);
                }
            }
        }
    }
}

/// Offering peers never takes the list past one more than the limit, where
/// it was not past it before.
pub proof fn lemma_add_peers_bounded(peers: Seq<Seq<char>>, offered: Seq<Seq<char>>)
    requires
        peers.len() <= MAX_PEERS + 1,
    ensures
        spec_add_peers(peers, offered).len() <= MAX_PEERS + 1,
    decreases offered.len(),
{
    if offered.len() > 0 {
        lemma_add_peers_bounded(peers, offered.drop_last());
    }
}

/// Offering peers keeps the known ones, first and in their order.
pub proof fn lemma_add_peers_keeps_known(peers: Seq<Seq<char>>, offered: Seq<Seq<char>>)
    ensures
        spec_add_peers(peers, offered).len() >= peers.len(),
        spec_add_peers(peers, offered).take(peers.len() as int) == peers,
    decreases offered.len(),
{
    if offered.len() > 0 {
        lemma_add_peers_keeps_known(peers, offered.drop_last());
        let before = spec_add_peers(peers, offered.drop_last());
        assert(before.push(offered.last()).take(peers.len() as int) =~= before.take(peers.len() as int));
    }
}

/// Offering a peer a second time changes nothing.
pub proof fn lemma_add_peer_idempotent(peers: Seq<Seq<char>>, p: Seq<char>)
    ensures
        spec_add_peers(spec_add_peers(peers, seq![p]), seq![p]) == spec_add_peers(peers, seq![p]),
{
    let once = spec_add_peers(peers, seq![p]);
    assert(seq![p].drop_last() =~= Seq::<Seq<char>>::empty());
    assert(seq![p].last() == p);
    assert(spec_add_peers(peers, Seq::<Seq<char>>::empty()) == peers);
    assert(spec_add_peers(once, Seq::<Seq<char>>::empty()) == once);
    assert(once == spec_add_peer(peers, p));
    if !peers.contains(p) && peers.len() <= MAX_PEERS {
        assert(once[once.len() - 1] == p);
        assert(once.contains(p));
    }
    assert(spec_add_peers(once, seq![p]) == spec_add_peer(once, p));
}

/// The ids that some transactions spend are those of their inputs.
pub proof fn lemma_txs_ids_contains(pool: Seq<TxView>, id: u64)
    ensures
        spec_txs_ids(pool).contains(id) <==> exists|i: int, k: int|
            0 <= i < pool.len() && 0 <= k < pool[i].tx_in.len() && #[trigger] pool[i].tx_in[k].unspent_id == id,
    decreases pool.len(),
{
    if pool.len() > 0 {
        let rest = pool.drop_last();
        let last = pool.last();
        lemma_txs_ids_contains(rest, id);
        let a = spec_txs_ids(rest);
        let b = spec_tx_ids(last);
        assert(spec_txs_ids(pool) == a + b);
        if spec_txs_ids(pool).contains(id) {
            let m = choose|m: int| 0 <= m < (a + b).len() && (a + b)[m] == id;
            if m < a.len() {
                assert(a.contains(id));
                let (i, k) = choose|i: int, k: int|
                    0 <= i < rest.len() && 0 <= k < rest[i].tx_in.len() && #[trigger] rest[i].tx_in[k].unspent_id == id;
                assert(pool[i] == rest[i]);
            } else {
                assert(b[m - a.len()] == id);
                assert(pool[pool.len() - 1].tx_in[m - a.len()].unspent_id == id);
            }
        }
        if exists|i: int, k: int|
            0 <= i < pool.len() && 0 <= k < pool[i].tx_in.len() && #[trigger] pool[i].tx_in[k].unspent_id == id {
            let (i, k) = choose|i: int, k: int|
                0 <= i < pool.len() && 0 <= k < pool[i].tx_in.len() && #[trigger] pool[i].tx_in[k].unspent_id == id;
            if i < rest.len() {
                assert(rest[i] == pool[i]);
                assert(rest[i].tx_in[k].unspent_id == id);
                assert(a.contains(id));
                let m = choose|m: int| 0 <= m < a.len() && a[m] == id;
                assert((a + b)[m] == id);
            } else {
                assert(b[k] == id);
                assert((a + b)[a.len() + k] == id);
            }
        }
    }
}

/// A pool takes no transaction that spends what another pending one
/// spends: where no two pending transactions share an input, none do after
/// one more is accepted.
pub proof fn lemma_pool_stays_disjoint(chain: Seq<BlockView>, pool: Seq<TxView>, tx: TxView)
    requires
        spec_pool_disjoint(pool),
        spec_pool_accepts(chain, pool, tx),
    ensures
        spec_pool_disjoint(pool.push(tx)),
{
    reveal(spec_pool_accepts);
    let next = pool.push(tx);
    assert forall|i: int, j: int| 0 <= i < j < next.len() implies share_no_input(
        #[trigger] next[i],
        #[trigger] next[j],
    ) by {
        assert(next[i] == pool[i]);
        if j == pool.len() {
            assert(next[j] == tx);
            assert forall|k: int, l: int|
                0 <= k < pool[i].tx_in.len() && 0 <= l < tx.tx_in.len() implies #[trigger] pool[i].tx_in[k].unspent_id
                != #[trigger] tx.tx_in[l].unspent_id by {
                let id = pool[i].tx_in[k].unspent_id;
                lemma_txs_ids_contains(pool, id);
                assert(!spec_txs_ids(pool).contains(tx.tx_in[l].unspent_id));
            }
        } else {
            assert(next[j] == pool[j]);
        }
    }
}

} // verus!
