use vstd::bytes::{spec_u64_to_le_bytes, u64_to_le_bytes};
use vstd::prelude::*;
use vstd::string::StringSliceAdditionalSpecFns;
use vstd::utf8::encode_utf8;

use crate::transaction::{txs_view, Transaction, TxView};
use crate::utxo::{outs_view, TransactionIn, TransactionOut, TxOutView};

verus! {


/// Eight little-endian bytes of an unsigned integer.
pub open spec fn enc_u64(x: u64) -> Seq<u8> {
    spec_u64_to_le_bytes(x)
}

/// A text as its UTF-8 bytes, preceded by their number.
pub open spec fn enc_text(s: Seq<char>) -> Seq<u8> {
    enc_u64(encode_utf8(s).len() as u64) + encode_utf8(s)
}

/// A byte string preceded by its length.
pub open spec fn enc_bytes(b: Seq<u8>) -> Seq<u8> {
    enc_u64(b.len() as u64) + b
}

/// One output: its address, then its amount.
pub open spec fn enc_out(o: TxOutView) -> Seq<u8> {
    enc_text(o.address) + enc_u64(o.amount)
}

/// The outputs one after another.
pub open spec fn enc_out_items(s: Seq<TxOutView>) -> Seq<u8>
    decreases s.len(),
{
    if s.len() == 0 {
        Seq::empty()
    } else {
        enc_out_items(s.drop_last()) + enc_out(s.last())
    }
}

/// The inputs one after another, each as the id it spends.
pub open spec fn enc_in_items(s: Seq<TransactionIn>) -> Seq<u8>
    decreases s.len(),
{
    if s.len() == 0 {
        Seq::empty()
    } else {
        enc_in_items(s.drop_last()) + enc_u64(s.last().unspent_id)
    }
}

/// What the sender of a transaction signs: sender, outputs, inputs and fee.
pub open spec fn enc_tx_body(
    sender: Seq<char>,
    out: Seq<TxOutView>,
    tx_in: Seq<TransactionIn>,
    fee: u64,
) -> Seq<u8> {
    enc_text(sender) + enc_u64(out.len() as u64) + enc_out_items(out) + enc_u64(tx_in.len() as u64)
        + enc_in_items(tx_in) + enc_u64(fee)
}

/// Appends the eight bytes of an integer.
pub fn push_u64(buf: &mut Vec<u8>, x: u64)
    ensures
        final(buf)@ == old(buf)@ + enc_u64(x),
{
    let mut b = u64_to_le_bytes(x);
    buf.append(&mut b);
}

/// Appends a byte string preceded by its length.
pub fn push_bytes(buf: &mut Vec<u8>, b: &[u8])
    ensures
        final(buf)@ == old(buf)@ + enc_bytes(b@),
{
    push_u64(buf, b.len() as u64);
    let mut i: usize = 0;
    let ghost start = buf@;
    while i < b.len()
        invariant
            0 <= i <= b@.len(),
            buf@ == start + b@.take(i as int),
        decreases b@.len() - i,
    {
        buf.push(b[i]);
        proof {
            assert(b@.take(i + 1) =~= b@.take(i as int).push(b@[i as int]));
        }
        i = i + 1;
    }
    proof {
        assert(b@.take(b@.len() as int) =~= b@);
    }
}

/// Appends a text as its UTF-8 bytes preceded by their number.
pub fn push_text(buf: &mut Vec<u8>, s: &String)
    ensures
        final(buf)@ == old(buf)@ + enc_text(s@),
{
    let bytes = s.as_str().as_bytes();
    proof {
        assert(bytes@ == encode_utf8(s@));
    }
    push_bytes(buf, bytes);
    proof {
        assert(final(buf)@ =~= old(buf)@ + enc_text(s@));
    }
}

/// Appends the outputs one after another.
pub fn push_out_items(buf: &mut Vec<u8>, outs: &Vec<TransactionOut>)
    ensures
        final(buf)@ == old(buf)@ + enc_out_items(outs_view(outs@)),
{
    let ghost start = buf@;
    let mut i: usize = 0;
    while i < outs.len()
        invariant
            0 <= i <= outs@.len(),
            buf@ == start + enc_out_items(outs_view(outs@).take(i as int)),
        decreases outs@.len() - i,
    {
        push_text(buf, &outs[i].address.der);
        push_u64(buf, outs[i].amount);
        proof {
            let s = outs_view(outs@).take(i + 1);
            assert(s.drop_last() =~= outs_view(outs@).take(i as int));
            assert(s.last() == outs@[i as int]@);
            assert(buf@ =~= start + enc_out_items(s));
        }
        i = i + 1;
    }
    proof {
        assert(outs_view(outs@).take(outs@.len() as int) =~= outs_view(outs@));
    }
}

/// Appends the ids that the inputs spend, one after another.
pub fn push_in_items(buf: &mut Vec<u8>, ins: &Vec<TransactionIn>)
    ensures
        final(buf)@ == old(buf)@ + enc_in_items(ins@),
{
    let ghost start = buf@;
    let mut i: usize = 0;
    while i < ins.len()
        invariant
            0 <= i <= ins@.len(),
            buf@ == start + enc_in_items(ins@.take(i as int)),
        decreases ins@.len() - i,
    {
        push_u64(buf, ins[i].unspent_id);
        proof {
            let s = ins@.take(i + 1);
            assert(s.drop_last() =~= ins@.take(i as int));
            assert(buf@ =~= start + enc_in_items(s));
        }
        i = i + 1;
    }
    proof {
        assert(ins@.take(ins@.len() as int) =~= ins@);
    }
}

/// Appends what the sender of a transaction signs.
pub fn push_tx_body(
    buf: &mut Vec<u8>,
    sender: &String,
    out: &Vec<TransactionOut>,
    tx_in: &Vec<TransactionIn>,
    fee: u64,
)
    ensures
        final(buf)@ == old(buf)@ + enc_tx_body(sender@, outs_view(out@), tx_in@, fee),
{
    push_text(buf, sender);
    push_u64(buf, out.len() as u64);
    push_out_items(buf, out);
    push_u64(buf, tx_in.len() as u64);
    push_in_items(buf, tx_in);
    push_u64(buf, fee);
    proof {
        assert(final(buf)@ =~= old(buf)@ + enc_tx_body(sender@, outs_view(out@), tx_in@, fee));
    }
}


/// A whole transaction: what its sender signed, then the signature.
pub open spec fn enc_tx(tx: TxView) -> Seq<u8> {
    enc_tx_body(tx.sender, tx.out, tx.tx_in, tx.fee) + enc_bytes(tx.signature)
}

/// The transactions one after another.
pub open spec fn enc_tx_items(s: Seq<TxView>) -> Seq<u8>
    decreases s.len(),
{
    if s.len() == 0 {
        Seq::empty()
    } else {
        enc_tx_items(s.drop_last()) + enc_tx(s.last())
    }
}

/// Signed 32-bit values one after another, each widened to 64 bits.
pub open spec fn enc_i32_items(s: Seq<i32>) -> Seq<u8>
    decreases s.len(),
{
    if s.len() == 0 {
        Seq::empty()
    } else {
        enc_i32_items(s.drop_last()) + enc_u64(s.last() as i64 as u64)
    }
}

/// Appends a whole transaction.
pub fn push_tx(buf: &mut Vec<u8>, tx: &Transaction)
    ensures
        final(buf)@ == old(buf)@ + enc_tx(tx@),
{
    push_tx_body(buf, &tx.sender.der, &tx.out, &tx.tx_in, tx.fee);
    push_bytes(buf, tx.signature.bytes.as_slice());
    proof {
        assert(final(buf)@ =~= old(buf)@ + enc_tx(tx@));
    }
}

/// Appends the transactions one after another.
pub fn push_tx_items(buf: &mut Vec<u8>, txs: &[Transaction])
    ensures
        final(buf)@ == old(buf)@ + enc_tx_items(txs_view(txs@)),
{
    let ghost start = buf@;
    let mut i: usize = 0;
    while i < txs.len()
        invariant
            0 <= i <= txs@.len(),
            buf@ == start + enc_tx_items(txs_view(txs@).take(i as int)),
        decreases txs@.len() - i,
    {
        push_tx(buf, &txs[i]);
        proof {
            let s = txs_view(txs@).take(i + 1);
            assert(s.drop_last() =~= txs_view(txs@).take(i as int));
            assert(s.last() == txs@[i as int]@);
            assert(buf@ =~= start + enc_tx_items(s));
        }
        i = i + 1;
    }
    proof {
        assert(txs_view(txs@).take(txs@.len() as int) =~= txs_view(txs@));
    }
}

/// Appends signed 32-bit values one after another.
pub fn push_i32_items(buf: &mut Vec<u8>, values: &Vec<i32>)
    ensures
        final(buf)@ == old(buf)@ + enc_i32_items(values@),
{
    let ghost start = buf@;
    let mut i: usize = 0;
    while i < values.len()
        invariant
            0 <= i <= values@.len(),
            buf@ == start + enc_i32_items(values@.take(i as int)),
        decreases values@.len() - i,
    {
        push_u64(buf, values[i] as i64 as u64);
        proof {
            let s = values@.take(i + 1);
            assert(s.drop_last() =~= values@.take(i as int));
            assert(buf@ =~= start + enc_i32_items(s));
        }
        i = i + 1;
    }
    proof {
        assert(values@.take(values@.len() as int) =~= values@);
    }
}

} // verus!
