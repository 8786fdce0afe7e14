use vstd::prelude::*;

use crate::block::{Block, BlockView};
use crate::key::Address;
use crate::p2p::{peers_view, MessageView, P2PMessage, Peer};

verus! {

/// What the node reacts to.
#[derive(Debug, PartialEq)]
pub enum Event {
    AddPeer(Peer),
    RemovePeers(Vec<Peer>),
    AddTransaction(Address, u64, u64),
    MineBlock,
    CompletedMineBlock(Block),
    P2PMessage(Option<Peer>, P2PMessage),
}

/// An event as the contracts see it.
pub enum EventView {
    AddPeer(Seq<char>),
    RemovePeers(Seq<Seq<char>>),
    AddTransaction(Seq<char>, u64, u64),
    MineBlock,
    CompletedMineBlock(BlockView),
    P2PMessage(Option<Seq<char>>, MessageView),
}

impl View for Event {
    type V = EventView;

    open spec fn view(&self) -> EventView {
        match self {
            Event::AddPeer(p) => EventView::AddPeer(p@),
            Event::RemovePeers(ps) => EventView::RemovePeers(peers_view(ps@)),
            Event::AddTransaction(a, amount, fee) => EventView::AddTransaction(a@, *amount, *fee),
            Event::MineBlock => EventView::MineBlock,
            Event::CompletedMineBlock(b) => EventView::CompletedMineBlock(b@),
            Event::P2PMessage(p, m) => EventView::P2PMessage(
                match p {
                    Some(p) => Some(p@),
                    None => None,
                },
                m@,
            ),
        }
    }
}

impl Clone for Event {
    fn clone(&self) -> (r: Self)
        ensures
            r@ == self@,
    {
        match self {
            Event::AddPeer(p) => Event::AddPeer(p.clone()),
            Event::RemovePeers(ps) => Event::RemovePeers(crate::p2p::clone_peers(ps)),
            Event::AddTransaction(a, amount, fee) => Event::AddTransaction(a.clone(), *amount, *fee),
            Event::MineBlock => Event::MineBlock,
            Event::CompletedMineBlock(b) => Event::CompletedMineBlock(b.clone()),
            Event::P2PMessage(p, m) => Event::P2PMessage(
                match p {
                    Some(p) => Some(p.clone()),
                    None => None,
                },
                m.clone(),
            ),
        }
    }
}

/// The events that follow an attempt to mine a block: the finished block,
/// where one came out, and in every case a new attempt.
pub fn events_after_mining(block: Option<Block>) -> (r: Vec<Event>)
    ensures
        match block {
            Some(b) => r@.len() == 2 && r@[0]@ == EventView::CompletedMineBlock(b@) && r@[1]@
                == EventView::MineBlock,
            None => r@.len() == 1 && r@[0]@ == EventView::MineBlock,
        },
{
    match block {
        Some(b) => vec![Event::CompletedMineBlock(b), Event::MineBlock],
        None => vec![Event::MineBlock],
    }
}

/// The event that follows a broadcast: the peers that could not be reached
/// are dropped.
pub fn events_after_broadcast(unreachable: Vec<Peer>) -> (r: Vec<Event>)
    ensures
        r@.len() == 1,
        r@[0]@ == EventView::RemovePeers(peers_view(unreachable@)),
{
    vec![Event::RemovePeers(unreachable)]
}

} // verus!
