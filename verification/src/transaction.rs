use vstd::prelude::*;

use crate::encoding::{enc_tx_body, push_tx_body};
use crate::hex::{hex_digit_str, spec_hex_digit};
use crate::key::{spec_key_signs, spec_key_sound, spec_public_key_of, spec_sign, spec_verify, Address, SignatureWrapper, SK};
use crate::utxo::{clone_outs, outs_view, TransactionIn, TransactionOut, TxOutView};

verus! {

/// A transfer signed by its sender: it spends the listed unspent outputs
/// and pays the listed outputs and the fee.
#[derive(Debug, PartialEq, Eq)]
pub struct Transaction {
    pub sender: Address,
    pub out: Vec<TransactionOut>,
    pub tx_in: Vec<TransactionIn>,
    pub fee: u64,
    pub signature: SignatureWrapper,
}

/// What a transaction is, as a mathematical value.
pub struct TxView {
    pub sender: Seq<char>,
    pub out: Seq<TxOutView>,
    pub tx_in: Seq<TransactionIn>,
    pub fee: u64,
    pub signature: Seq<u8>,
}

impl View for Transaction {
    type V = TxView;

    open spec fn view(&self) -> TxView {
        TxView {
            sender: self.sender@,
            out: outs_view(self.out@),
            tx_in: self.tx_in@,
            fee: self.fee,
            signature: self.signature@,
        }
    }
}

/// Copies a list of inputs.
pub fn clone_ins(v: &Vec<TransactionIn>) -> (r: Vec<TransactionIn>)
    ensures
        r@ == v@,
{
    let mut r: Vec<TransactionIn> = Vec::new();
    let mut i: usize = 0;
    while i < v.len()
        invariant
            0 <= i <= v@.len(),
            r@ == v@.take(i as int),
        decreases v@.len() - i,
    {
        r.push(v[i]);
        proof {
            assert(v@.take(i + 1) =~= v@.take(i as int).push(v@[i as int]));
        }
        i = i + 1;
    }
    proof {
        assert(v@.take(v@.len() as int) =~= v@);
    }
    r
}

impl Clone for Transaction {
    fn clone(&self) -> (r: Self)
        ensures
            r@ == self@,
    {
        Transaction {
            sender: self.sender.clone(),
            out: clone_outs(&self.out),
            tx_in: clone_ins(&self.tx_in),
            fee: self.fee,
            signature: self.signature.clone(),
        }
    }
}

/// The views of a sequence of transactions.
pub open spec fn txs_view(s: Seq<Transaction>) -> Seq<TxView> {
    s.map_values(|t: Transaction| t@)
}

/// Copies a list of transactions.
pub fn clone_txs(v: &Vec<Transaction>) -> (r: Vec<Transaction>)
    ensures
        txs_view(r@) == txs_view(v@),
{
    let r = v.clone();
    proof {
        assert(txs_view(r@) =~= txs_view(v@));
    }
    r
}

/// The sum of the amounts of some outputs.
pub open spec fn spec_sum_out(s: Seq<TxOutView>) -> int
    decreases s.len(),
{
    if s.len() == 0 {
        0
    } else {
        spec_sum_out(s.drop_last()) + s.last().amount
    }
}

/// What a transaction moves: its outputs and its fee.
pub open spec fn spec_total_amount(tx: TxView) -> int {
    tx.fee + spec_sum_out(tx.out)
}

/// The bytes that the sender of a transaction signs.
pub open spec fn spec_tx_message(tx: TxView) -> Seq<u8> {
    enc_tx_body(tx.sender, tx.out, tx.tx_in, tx.fee)
}

/// Whether the signature of a transaction verifies under its sender.
pub open spec fn spec_tx_signature_ok(tx: TxView) -> bool {
    spec_verify(tx.sender, spec_tx_message(tx), tx.signature)
}

proof fn lemma_sum_out_nonneg(s: Seq<TxOutView>)
    ensures
        spec_sum_out(s) >= 0,
    decreases s.len(),
{
    if s.len() > 0 {
        lemma_sum_out_nonneg(s.drop_last());
    }
}

/// The sum of the amounts of some outputs, where it fits in 128 bits.
pub fn sum_out_amounts(out: &Vec<TransactionOut>) -> (r: u128)
    ensures
        r == spec_sum_out(outs_view(out@)),
        r <= out@.len() * 0xffff_ffff_ffff_ffff,
{
    let mut total: u128 = 0;
    let mut i: usize = 0;
    while i < out.len()
        invariant
            0 <= i <= out@.len(),
            total == spec_sum_out(outs_view(out@).take(i as int)),
            total <= i * 0xffff_ffff_ffff_ffff,
        decreases out@.len() - i,
    {
        proof {
            let s = outs_view(out@).take(i + 1);
            assert(s.drop_last() =~= outs_view(out@).take(i as int));
            assert(i * 0xffff_ffff_ffff_ffff + 0xffff_ffff_ffff_ffff == (i + 1) * 0xffff_ffff_ffff_ffff)
                by (nonlinear_arith);
            assert((i + 1) * 0xffff_ffff_ffff_ffff <= 0xffff_ffff_ffff_ffff * 0xffff_ffff_ffff_ffff)
                by (nonlinear_arith)
                requires
                    i + 1 <= 0xffff_ffff_ffff_ffff,
            ;
        }
        total = total + out[i].amount as u128;
        i = i + 1;
    }
    proof {
        assert(outs_view(out@).take(out@.len() as int) =~= outs_view(out@));
    }
    total
}

impl Transaction {
    /// Puts a transaction together from its parts.
    pub fn new(
        sender: Address,
        out: Vec<TransactionOut>,
        tx_in: Vec<TransactionIn>,
        fee: u64,
        signature: SignatureWrapper,
    ) -> (r: Self)
        ensures
            r@ == (TxView {
                sender: sender@,
                out: outs_view(out@),
                tx_in: tx_in@,
                fee,
                signature: signature@,
            }),
    {
        Transaction { sender, out, tx_in, fee, signature }
    }

    /// Puts a transaction together and signs it with the sender's key;
    /// `None` where the key cannot sign.
    pub fn new_with_creating_signature(
        sender: &Address,
        out: Vec<TransactionOut>,
        tx_in: Vec<TransactionIn>,
        fee: u64,
        sk: &SK,
    ) -> (r: Option<Self>)
        ensures
            ({
                let message = enc_tx_body(sender@, outs_view(out@), tx_in@, fee);
                match r {
                    Some(tx) => {
                        &&& spec_sign(sk@, message) == Some(tx.signature@)
                        &&& tx@.sender == sender@
                        &&& tx@.out == outs_view(out@)
                        &&& tx@.tx_in == tx_in@
                        &&& tx@.fee == fee
                    },
                    None => spec_sign(sk@, message) is None,
                }
            }),
            r matches Some(tx) ==> (spec_public_key_of(sk@) == Some(sender@) && (tx.signature@.len() <= 512
                || spec_key_sound(sk@)) ==> spec_tx_signature_ok(tx@)),
            spec_key_signs(sk@) ==> r is Some,
    {
        let signature = create_transaction_signature(sender, &out, &tx_in, fee, sk);
        match signature {
            Some(signature) => Some(
                Transaction { sender: sender.clone(), out, tx_in, fee, signature },
            ),
            None => None,
        }
    }

    /// Whether the signature verifies under the sender's address.
    pub fn verify_signature(&self) -> (r: bool)
        ensures
            r == spec_tx_signature_ok(self@),
    {
        let buf = transaction_to_buf_for_signature(&self.sender, &self.out, &self.tx_in, self.fee);
        self.sender.verify(buf.as_slice(), &self.signature)
    }

    /// The transaction as one line of text: sender, the addresses paid and
    /// the total amount.
    pub fn describe(&self) -> (r: String)
        requires
            spec_total_amount(self@) <= u64::MAX,
        ensures
            r@ == spec_describe(self@),
    {
        let mut r = String::new();
        r.append(self.sender.der.as_str());
        proof {
            reveal_strlit(" -> ");
            reveal_strlit(", ");
            reveal_strlit(": ");
        }
        r.append(" -> ");
        let ghost start = r@;
        let mut i: usize = 0;
        while i < self.out.len()
            invariant
                0 <= i <= self.out@.len(),
                r@ == start + spec_join_addresses(outs_view(self.out@).take(i as int)),
            decreases self.out@.len() - i,
        {
            let ghost before = r@;
            if i > 0 {
                r.append(", ");
            }
            r.append(self.out[i].address.der.as_str());
            proof {
                reveal_strlit(", ");
                let o = outs_view(self.out@);
                let t = o.take(i + 1);
                assert(t.drop_last() =~= o.take(i as int));
                assert(t.last() == o[i as int]);
                assert(o[i as int].address == self.out@[i as int].address.der@);
                if i == 0 {
                    assert(t.len() == 1 && t[0] == o[0]);
                    assert(spec_join_addresses(o.take(0)) =~= Seq::<char>::empty());
                    assert(r@ =~= start + spec_join_addresses(t));
                } else {
                    assert(spec_join_addresses(t) == spec_join_addresses(o.take(i as int)) + seq![',', ' ']
                        + o[i as int].address);
                    assert(r@ =~= start + spec_join_addresses(t));
                }
            }
            i = i + 1;
        }
        proof {
            assert(outs_view(self.out@).take(self.out@.len() as int) =~= outs_view(self.out@));
        }
        r.append(": ");
        let total = self.total_amount();
        push_decimal(&mut r, total);
        proof {
            assert(r@ =~= spec_describe(self@));
        }
        r
    }

    /// The outputs' amounts and the fee, summed.
    pub fn total_amount(&self) -> (r: u64)
        requires
            spec_total_amount(self@) <= u64::MAX,
        ensures
            r == spec_total_amount(self@),
    {
        let outs = sum_out_amounts(&self.out);
        proof {
            lemma_sum_out_nonneg(outs_view(self.out@));
        }
        (self.fee as u128 + outs) as u64
    }
}

/// The bytes that the sender signs.
fn transaction_to_buf_for_signature(
    sender: &Address,
    out: &Vec<TransactionOut>,
    tx_in: &Vec<TransactionIn>,
    fee: u64,
) -> (r: Vec<u8>)
    ensures
        r@ == enc_tx_body(sender@, outs_view(out@), tx_in@, fee),
{
    let mut buf: Vec<u8> = Vec::new();
    push_tx_body(&mut buf, &sender.der, out, tx_in, fee);
    proof {
        assert(buf@ =~= enc_tx_body(sender@, outs_view(out@), tx_in@, fee));
    }
    buf
}

fn create_transaction_signature(
    sender: &Address,
    out: &Vec<TransactionOut>,
    tx_in: &Vec<TransactionIn>,
    fee: u64,
    sk: &SK,
) -> (r: Option<SignatureWrapper>)
    ensures
        ({
            let message = enc_tx_body(sender@, outs_view(out@), tx_in@, fee);
            &&& match r {
                Some(s) => spec_sign(sk@, message) == Some(s@),
                None => spec_sign(sk@, message) is None,
            }
            &&& r matches Some(s) ==> s@.len() <= 512 ==> forall|pk: Seq<char>|
                spec_public_key_of(sk@) == Some(pk) ==> #[trigger] spec_verify(pk, message, s@)
        }),
{
    let data = transaction_to_buf_for_signature(sender, out, tx_in, fee);
    sk.sign(data.as_slice())
}

/// The decimal digits of a number, without leading zeros.
pub open spec fn spec_decimal_digits(n: nat) -> Seq<char>
    decreases n,
{
    if n < 10 {
        seq![spec_hex_digit(n as u8)]
    } else {
        spec_decimal_digits(n / 10) + seq![spec_hex_digit((n % 10) as u8)]
    }
}

/// The addresses of some outputs, separated by a comma and a space.
pub open spec fn spec_join_addresses(outs: Seq<TxOutView>) -> Seq<char>
    decreases outs.len(),
{
    if outs.len() == 0 {
        Seq::empty()
    } else if outs.len() == 1 {
        outs[0].address
    } else {
        spec_join_addresses(outs.drop_last()) + seq![',', ' '] + outs.last().address
    }
}

/// A transaction as one line of text: the sender, an arrow, the addresses
/// paid, and after a colon the total that it moves, in decimal.
pub open spec fn spec_describe(tx: TxView) -> Seq<char> {
    tx.sender + seq![' ', '-', '>', ' '] + spec_join_addresses(tx.out) + seq![':', ' ']
        + spec_decimal_digits(spec_total_amount(tx) as nat)
}

/// Appends the decimal digits of `n`.
fn push_decimal(s: &mut String, n: u64)
    ensures
        final(s)@ == old(s)@ + spec_decimal_digits(n as nat),
    decreases n,
{
    if n >= 10 {
        push_decimal(s, n / 10);
    }
    s.append(hex_digit_str((n % 10) as u8));
    proof {
        assert(final(s)@ =~= old(s)@ + spec_decimal_digits(n as nat));
    }
}

} // verus!
