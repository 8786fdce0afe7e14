//! A small proof-of-work-free blockchain node library: transactions over
//! unspent outputs, blocks sealed by a verifiable delay function and a
//! temperature beacon, chain validation and the node's event handling.

pub mod hash;
pub mod hex;
pub mod key;
pub mod utxo;
pub mod encoding;
pub mod transaction;
pub mod beacon;
pub mod vdf;
pub mod block;
pub mod coinbase;
pub mod chain;
pub mod generation;
pub mod utxo_state;
pub mod validation;
pub mod p2p;
pub mod state;
pub mod mining;
pub mod effect;
pub mod event;
pub mod update;
pub mod config;
