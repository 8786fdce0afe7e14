use vstd::prelude::*;

use crate::p2p::{MessageView, P2PMessage};
use crate::transaction::{clone_txs, txs_view, Transaction, TxView};

verus! {

/// What the node does after handling an event.
#[derive(Debug, PartialEq)]
pub enum Effect {
    Nothing,
    MineBlock(Vec<Transaction>),
    Broadcast(P2PMessage),
}

/// An effect as the contracts see it.
pub enum EffectView {
    Nothing,
    MineBlock(Seq<TxView>),
    Broadcast(MessageView),
}

impl View for Effect {
    type V = EffectView;

    open spec fn view(&self) -> EffectView {
        match self {
            Effect::Nothing => EffectView::Nothing,
            Effect::MineBlock(t) => EffectView::MineBlock(txs_view(t@)),
            Effect::Broadcast(m) => EffectView::Broadcast(m@),
        }
    }
}

impl Clone for Effect {
    fn clone(&self) -> (r: Self)
        ensures
            r@ == self@,
    {
        match self {
            Effect::Nothing => Effect::Nothing,
            Effect::MineBlock(t) => Effect::MineBlock(clone_txs(t)),
            Effect::Broadcast(m) => Effect::Broadcast(m.clone()),
        }
    }
}

/// The effect where something changed; nothing otherwise.
pub fn when_changed(effect: Effect, changed: bool) -> (r: Effect)
    ensures
        r@ == (if changed {
            effect@
        } else {
            EffectView::Nothing
        }),
{
    if changed {
        effect
    } else {
        Effect::Nothing
    }
}

/// What handling an event did: whether the state changed, and the effect.
#[derive(Debug, PartialEq)]
pub struct UpdateResult {
    pub changed: bool,
    pub effect: Effect,
}

impl Clone for UpdateResult {
    fn clone(&self) -> (r: Self)
        ensures
            r.changed == self.changed,
            r.effect@ == self.effect@,
    {
        UpdateResult { changed: self.changed, effect: self.effect.clone() }
    }
}

} // verus!
