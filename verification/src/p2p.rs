use vstd::prelude::*;

use crate::block::{Block, BlockView};
use crate::chain::{blocks_view, clone_blocks};
use crate::transaction::{clone_txs, txs_view, Transaction, TxView};

verus! {

/// Another node, by its network address.
#[derive(Debug, PartialEq, Eq)]
pub struct Peer {
    pub addr: String,
}

impl View for Peer {
    type V = Seq<char>;

    open spec fn view(&self) -> Seq<char> {
        self.addr@
    }
}

impl Clone for Peer {
    fn clone(&self) -> (r: Self)
        ensures
            r@ == self@,
    {
        Peer { addr: self.addr.clone() }
    }
}

impl Peer {
    pub fn new(addr: &str) -> (r: Self)
        ensures
            r@ == addr@,
    {
        Peer { addr: addr.to_string() }
    }
}

/// The addresses of some peers.
pub open spec fn peers_view(s: Seq<Peer>) -> Seq<Seq<char>> {
    s.map_values(|p: Peer| p@)
}

/// Copies a list of peers.
pub fn clone_peers(v: &Vec<Peer>) -> (r: Vec<Peer>)
    ensures
        peers_view(r@) == peers_view(v@),
{
    let mut r: Vec<Peer> = Vec::new();
    let mut i: usize = 0;
    while i < v.len()
        invariant
            0 <= i <= v@.len(),
            peers_view(r@) == peers_view(v@).take(i as int),
            r@.len() == i,
        decreases v@.len() - i,
    {
        let c = v[i].clone();
        let ghost before = r@;
        r.push(c);
        proof {
            assert(r@ == before.push(c));
            assert(peers_view(r@)[i as int] == c@);
            assert(peers_view(r@) =~= peers_view(v@).take(i + 1));
        }
        i = i + 1;
    }
    proof {
        assert(peers_view(v@).take(v@.len() as int) =~= peers_view(v@));
    }
    r
}

/// Whether two peers have the same address.
pub fn same_peer(a: &Peer, b: &Peer) -> (r: bool)
    ensures
        r == (a@ == b@),
{
    a.addr == b.addr
}

/// What nodes send each other.
#[derive(Debug, PartialEq)]
pub enum P2PMessage {
    QueryLatest,
    QueryAll,
    QueryTransactions,
    QueryPeers,
    ResponseBlockChain(Vec<Block>),
    ResponseTransactions(Vec<Transaction>),
    ResponsePeers(Vec<Peer>),
}

/// A message as the contracts see it.
pub enum MessageView {
    QueryLatest,
    QueryAll,
    QueryTransactions,
    QueryPeers,
    ResponseBlockChain(Seq<BlockView>),
    ResponseTransactions(Seq<TxView>),
    ResponsePeers(Seq<Seq<char>>),
}

impl View for P2PMessage {
    type V = MessageView;

    open spec fn view(&self) -> MessageView {
        match self {
            P2PMessage::QueryLatest => MessageView::QueryLatest,
            P2PMessage::QueryAll => MessageView::QueryAll,
            P2PMessage::QueryTransactions => MessageView::QueryTransactions,
            P2PMessage::QueryPeers => MessageView::QueryPeers,
            P2PMessage::ResponseBlockChain(b) => MessageView::ResponseBlockChain(blocks_view(b@)),
            P2PMessage::ResponseTransactions(t) => MessageView::ResponseTransactions(txs_view(t@)),
            P2PMessage::ResponsePeers(p) => MessageView::ResponsePeers(peers_view(p@)),
        }
    }
}

impl Clone for P2PMessage {
    fn clone(&self) -> (r: Self)
        ensures
            r@ == self@,
    {
        match self {
            P2PMessage::QueryLatest => P2PMessage::QueryLatest,
            P2PMessage::QueryAll => P2PMessage::QueryAll,
            P2PMessage::QueryTransactions => P2PMessage::QueryTransactions,
            P2PMessage::QueryPeers => P2PMessage::QueryPeers,
            P2PMessage::ResponseBlockChain(b) => P2PMessage::ResponseBlockChain(clone_blocks(b)),
            P2PMessage::ResponseTransactions(t) => P2PMessage::ResponseTransactions(clone_txs(t)),
            P2PMessage::ResponsePeers(p) => P2PMessage::ResponsePeers(clone_peers(p)),
        }
    }
}

/// A message with the port on which its sender listens.
#[derive(Debug, PartialEq)]
pub struct P2PMessagePayload {
    pub message: P2PMessage,
    pub port: u16,
}

impl Clone for P2PMessagePayload {
    fn clone(&self) -> (r: Self)
        ensures
            r.message@ == self.message@,
            r.port == self.port,
    {
        P2PMessagePayload { message: self.message.clone(), port: self.port }
    }
}

} // verus!
