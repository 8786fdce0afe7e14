use vstd::prelude::*;

use crate::beacon::Beacon;
use crate::encoding::{
    enc_bytes, enc_i32_items, enc_text, enc_tx_items, enc_u64, push_bytes, push_i32_items, push_text,
    push_tx_items, push_u64,
};
use crate::hash::{hash, hashes_equal, sha256_digest, Hashed};
use crate::key::{spec_key_signs, spec_key_sound, spec_public_key_of, spec_sign, spec_verify, Address, SignatureWrapper, PK, SK};
use crate::transaction::{clone_txs, txs_view, Transaction, TxView};
use crate::vdf::{pietrzak_solution, solve, valid_difficulty, verify_solution, VdfError};

verus! {

/// The most transactions a block may carry, its coinbase included.
pub const MAX_TRANSACTIONS_PER_BLOCK: usize = 100;

/// The delay, in squarings, that blocks are sealed and checked with.
pub const VDF_DIFFICULTY: u64 = 66;

/// The text of the address that issued the first block.
pub const GENESIS_ISSUER: &'static str = "genesis";

/// A block: its content, the delay proof over it, the issuer's signature
/// and the hash of all of these.
#[derive(Debug, PartialEq)]
pub struct Block {
    pub index: u64,
    pub timestamp: i64,
    pub transactions: Vec<Transaction>,
    pub beacon: Beacon,
    pub vdf_solution: Vec<u8>,
    pub previous_hash: Hashed,
    pub issuer: Address,
    pub signature: SignatureWrapper,
    pub hash: Hashed,
}

/// What a block is, as a mathematical value.
pub struct BlockView {
    pub index: u64,
    pub timestamp: i64,
    pub transactions: Seq<TxView>,
    pub beacon: Seq<i32>,
    pub vdf_solution: Seq<u8>,
    pub previous_hash: Hashed,
    pub issuer: Seq<char>,
    pub signature: Seq<u8>,
    pub hash: Hashed,
}

impl View for Block {
    type V = BlockView;

    open spec fn view(&self) -> BlockView {
        BlockView {
            index: self.index,
            timestamp: self.timestamp,
            transactions: txs_view(self.transactions@),
            beacon: self.beacon@,
            vdf_solution: self.vdf_solution@,
            previous_hash: self.previous_hash,
            issuer: self.issuer@,
            signature: self.signature@,
            hash: self.hash,
        }
    }
}

/// Copies a byte string.
pub fn clone_bytes(v: &Vec<u8>) -> (r: Vec<u8>)
    ensures
        r@ == v@,
{
    let mut r: Vec<u8> = Vec::new();
    let mut i: usize = 0;
    while i < v.len()
        invariant
            0 <= i <= v@.len(),
            r@ == v@.take(i as int),
        decreases v@.len() - i,
    {
        r.push(v[i]);
        proof {
            assert(v@.take(i + 1) =~= v@.take(i as int).push(v@[i as int]));
        }
        i = i + 1;
    }
    proof {
        assert(v@.take(v@.len() as int) =~= v@);
    }
    r
}

impl Clone for Block {
    fn clone(&self) -> (r: Self)
        ensures
            r@ == self@,
    {
        Block {
            index: self.index,
            timestamp: self.timestamp,
            transactions: clone_txs(&self.transactions),
            beacon: self.beacon.clone(),
            vdf_solution: clone_bytes(&self.vdf_solution),
            previous_hash: self.previous_hash,
            issuer: self.issuer.clone(),
            signature: self.signature.clone(),
            hash: self.hash,
        }
    }
}

/// The content of a block, before it is sealed.
pub struct BlockDataView {
    pub index: u64,
    pub timestamp: i64,
    pub transactions: Seq<TxView>,
    pub beacon: Seq<i32>,
    pub issuer: Seq<char>,
    pub previous_hash: Hashed,
}

/// The content of a block, borrowed.
pub struct BlockData<'a> {
    index: u64,
    timestamp: i64,
    transactions: &'a [Transaction],
    beacon: &'a Beacon,
    issuer: &'a Address,
    previous_hash: Hashed,
}

impl<'a> View for BlockData<'a> {
    type V = BlockDataView;

    closed spec fn view(&self) -> BlockDataView {
        BlockDataView {
            index: self.index,
            timestamp: self.timestamp,
            transactions: txs_view(self.transactions@),
            beacon: self.beacon@,
            issuer: self.issuer@,
            previous_hash: self.previous_hash,
        }
    }
}

/// The content of a block, owned.
#[derive(Debug, PartialEq)]
pub struct BlockDataOwned {
    pub index: u64,
    pub timestamp: i64,
    pub transactions: Vec<Transaction>,
    pub beacon: Beacon,
    pub issuer: Address,
    pub previous_hash: Hashed,
}

impl View for BlockDataOwned {
    type V = BlockDataView;

    open spec fn view(&self) -> BlockDataView {
        BlockDataView {
            index: self.index,
            timestamp: self.timestamp,
            transactions: txs_view(self.transactions@),
            beacon: self.beacon@,
            issuer: self.issuer@,
            previous_hash: self.previous_hash,
        }
    }
}

impl Clone for BlockDataOwned {
    fn clone(&self) -> (r: Self)
        ensures
            r@ == self@,
    {
        BlockDataOwned {
            index: self.index,
            timestamp: self.timestamp,
            transactions: clone_txs(&self.transactions),
            beacon: self.beacon.clone(),
            issuer: self.issuer.clone(),
            previous_hash: self.previous_hash,
        }
    }
}

/// The content of a sealed block.
pub open spec fn block_data_of(b: BlockView) -> BlockDataView {
    BlockDataView {
        index: b.index,
        timestamp: b.timestamp,
        transactions: b.transactions,
        beacon: b.beacon,
        issuer: b.issuer,
        previous_hash: b.previous_hash,
    }
}

/// The bytes of a block's content: index, time, transactions, beacon,
/// issuer and previous hash. The delay function runs over these.
pub open spec fn enc_block_data(d: BlockDataView) -> Seq<u8> {
    enc_u64(d.index) + enc_u64(d.timestamp as u64) + enc_u64(d.transactions.len() as u64)
        + enc_tx_items(d.transactions) + enc_u64(d.beacon.len() as u64) + enc_i32_items(d.beacon)
        + enc_text(d.issuer) + d.previous_hash@
}

/// What the issuer signs: the content and the delay proof.
pub open spec fn spec_block_message(d: BlockDataView, vdf_solution: Seq<u8>) -> Seq<u8> {
    enc_block_data(d) + enc_bytes(vdf_solution)
}

/// The digest that seals a block: over its content, proof and signature.
pub open spec fn spec_block_hash(d: BlockDataView, vdf_solution: Seq<u8>, signature: Seq<u8>) -> Seq<
    u8,
> {
    sha256_digest(spec_block_message(d, vdf_solution) + enc_bytes(signature))
}

/// Whether the issuer's signature of a block verifies.
pub open spec fn spec_block_signature_ok(b: BlockView) -> bool {
    spec_verify(b.issuer, spec_block_message(block_data_of(b), b.vdf_solution), b.signature)
}

/// Whether a block's delay proof verifies for the given delay.
pub open spec fn spec_block_vdf_ok(b: BlockView, difficulty: u64) -> bool {
    valid_difficulty(difficulty) && b.vdf_solution == pietrzak_solution(enc_block_data(block_data_of(b)), difficulty)
}

/// The sealed block with this content, proof and signature.
pub open spec fn spec_sealed_block(d: BlockDataView, vdf_solution: Seq<u8>, signature: Seq<u8>, hash: Hashed) -> BlockView {
    BlockView {
        index: d.index,
        timestamp: d.timestamp,
        transactions: d.transactions,
        beacon: d.beacon,
        vdf_solution,
        previous_hash: d.previous_hash,
        issuer: d.issuer,
        signature,
        hash,
    }
}

/// A block sealed with the proof that the delay function computes for its
/// content verifies for that delay, whatever its signature and hash.
pub proof fn lemma_solved_block_verifies(
    d: BlockDataView,
    signature: Seq<u8>,
    hash: Hashed,
    difficulty: u64,
)
    requires
        valid_difficulty(difficulty),
    ensures
        spec_block_vdf_ok(
            spec_sealed_block(d, pietrzak_solution(enc_block_data(d), difficulty), signature, hash),
            difficulty,
        ),
{
    let b = spec_sealed_block(d, pietrzak_solution(enc_block_data(d), difficulty), signature, hash);
    assert(block_data_of(b) == d);
}

/// Whether a block content is that of the first block.
pub open spec fn is_genesis_data(d: BlockDataView) -> bool {
    &&& d.index == 0
    &&& d.timestamp == 0
    &&& d.transactions == Seq::<TxView>::empty()
    &&& d.beacon == Seq::<i32>::empty()
    &&& d.issuer == GENESIS_ISSUER@
    &&& d.previous_hash@ == Seq::new(32, |i: int| 0u8)
}

/// Whether a block is the first block of every chain.
pub open spec fn spec_is_genesis(b: BlockView) -> bool {
    &&& is_genesis_data(block_data_of(b))
    &&& b.vdf_solution == Seq::<u8>::empty()
    &&& b.signature == Seq::<u8>::empty()
    &&& b.hash@ == spec_block_hash(block_data_of(b), Seq::empty(), Seq::empty())
}

fn block_data_bytes(blockdata: &BlockData) -> (r: Vec<u8>)
    ensures
        r@ == enc_block_data(blockdata@),
{
    let mut buf: Vec<u8> = Vec::new();
    push_u64(&mut buf, blockdata.index);
    push_u64(&mut buf, blockdata.timestamp as u64);
    push_u64(&mut buf, blockdata.transactions.len() as u64);
    push_tx_items(&mut buf, blockdata.transactions);
    push_u64(&mut buf, blockdata.beacon.values.len() as u64);
    push_i32_items(&mut buf, &blockdata.beacon.values);
    push_text(&mut buf, &blockdata.issuer.der);
    let mut i: usize = 0;
    let ghost start = buf@;
    while i < 32
        invariant
            0 <= i <= 32,
            buf@ == start + blockdata.previous_hash@.take(i as int),
        decreases 32 - i,
    {
        buf.push(blockdata.previous_hash[i]);
        proof {
            assert(blockdata.previous_hash@.take(i + 1) =~= blockdata.previous_hash@.take(
                i as int,
            ).push(blockdata.previous_hash@[i as int]));
        }
        i = i + 1;
    }
    proof {
        assert(blockdata.previous_hash@.take(32) =~= blockdata.previous_hash@);
        assert(buf@ =~= enc_block_data(blockdata@));
    }
    buf
}

fn block_to_buf_for_signature(blockdata: &BlockData, vdf_solution: &[u8]) -> (r: Vec<u8>)
    ensures
        r@ == spec_block_message(blockdata@, vdf_solution@),
{
    let mut buf = block_data_bytes(blockdata);
    push_bytes(&mut buf, vdf_solution);
    buf
}

fn create_block_signature(blockdata: &BlockData, vdf_solution: &[u8], sk: &SK) -> (r: Option<
    SignatureWrapper,
>)
    ensures
        ({
            let message = spec_block_message(blockdata@, vdf_solution@);
            &&& match r {
                Some(s) => spec_sign(sk@, message) == Some(s@),
                None => spec_sign(sk@, message) is None,
            }
            &&& r matches Some(s) ==> s@.len() <= 512 ==> forall|pk: Seq<char>|
                spec_public_key_of(sk@) == Some(pk) ==> #[trigger] spec_verify(pk, message, s@)
        }),
{
    let data = block_to_buf_for_signature(blockdata, vdf_solution);
    sk.sign(data.as_slice())
}

fn block_to_buf_for_vdf(blockdata: &BlockData) -> (r: Vec<u8>)
    ensures
        r@ == enc_block_data(blockdata@),
{
    block_data_bytes(blockdata)
}

/// The digest that seals a block with this content, proof and signature.
pub fn calculate_hash(blockdata: &BlockData, vdf_solution: &[u8], signature: SignatureWrapper) -> (r:
    Hashed)
    ensures
        r@ == spec_block_hash(blockdata@, vdf_solution@, signature@),
{
    let mut buf = block_to_buf_for_signature(blockdata, vdf_solution);
    push_bytes(&mut buf, signature.bytes.as_slice());
    proof {
        assert(buf@ =~= spec_block_message(blockdata@, vdf_solution@) + enc_bytes(signature@));
    }
    hash(buf.as_slice())
}

impl<'a> BlockData<'a> {
    /// The bytes that stand for this content: what the block hash covers
    /// and what the delay function runs over.
    pub fn to_bytes(&self) -> (r: Vec<u8>)
        ensures
            r@ == enc_block_data(self@),
    {
        block_data_bytes(self)
    }

    pub fn new(
        index: u64,
        timestamp: i64,
        transactions: &'a [Transaction],
        beacon: &'a Beacon,
        issuer: &'a Address,
        previous_hash: Hashed,
    ) -> (r: Self)
        ensures
            r@ == (BlockDataView {
                index,
                timestamp,
                transactions: txs_view(transactions@),
                beacon: beacon@,
                issuer: issuer@,
                previous_hash,
            }),
    {
        BlockData { index, timestamp, transactions, beacon, issuer, previous_hash }
    }

    /// An owned copy of the content.
    pub fn to_owned(&self) -> (r: BlockDataOwned)
        ensures
            r@ == self@,
    {
        let mut transactions: Vec<Transaction> = Vec::new();
        let mut i: usize = 0;
        while i < self.transactions.len()
            invariant
                0 <= i <= self.transactions@.len(),
                transactions@.len() == i,
                txs_view(transactions@) == txs_view(self.transactions@).take(i as int),
            decreases self.transactions@.len() - i,
        {
            let t = self.transactions[i].clone();
            let ghost before = transactions@;
            transactions.push(t);
            proof {
                assert(t@ == self.transactions@[i as int]@);
                assert(transactions@ == before.push(t));
                assert(txs_view(transactions@)[i as int] == t@);
                assert(txs_view(transactions@) =~= txs_view(self.transactions@).take(i + 1));
            }
            i = i + 1;
        }
        proof {
            assert(txs_view(self.transactions@).take(self.transactions@.len() as int) =~= txs_view(
                self.transactions@,
            ));
        }
        BlockDataOwned {
            index: self.index,
            timestamp: self.timestamp,
            transactions,
            beacon: self.beacon.clone(),
            issuer: self.issuer.clone(),
            previous_hash: self.previous_hash,
        }
    }
}

impl BlockDataOwned {
    /// The bytes that stand for this content: what the block hash covers
    /// and what the delay function runs over.
    pub fn to_bytes(&self) -> (r: Vec<u8>)
        ensures
            r@ == enc_block_data(self@),
    {
        let data = self.as_borrowed();
        block_data_bytes(&data)
    }

    /// The content, borrowed.
    pub fn as_borrowed(&self) -> (r: BlockData<'_>)
        ensures
            r@ == self@,
    {
        BlockData::new(
            self.index,
            self.timestamp,
            self.transactions.as_slice(),
            &self.beacon,
            &self.issuer,
            self.previous_hash,
        )
    }
}

impl Block {
    /// Seals a block's content with a delay proof and a signature.
    pub fn new(blockdata: &BlockData, vdf_solution: Vec<u8>, signature: SignatureWrapper) -> (r:
        Self)
        ensures
            r@ == spec_sealed_block(blockdata@, vdf_solution@, signature@, r.hash),
            r.hash@ == spec_block_hash(blockdata@, vdf_solution@, signature@),
    {
        let hash = calculate_hash(blockdata, vdf_solution.as_slice(), signature.clone());
        let owned = blockdata.to_owned();
        Block {
            index: owned.index,
            timestamp: owned.timestamp,
            transactions: owned.transactions,
            beacon: owned.beacon,
            vdf_solution,
            previous_hash: owned.previous_hash,
            issuer: owned.issuer,
            signature,
            hash,
        }
    }

    /// Seals a block's content with a delay proof, signed with the issuer's
    /// key; `None` where the key cannot sign.
    pub fn new_with_creating_signature(blockdata: &BlockData, vdf_solution: Vec<u8>, sk: &SK) -> (r:
        Option<Self>)
        ensures
            ({
                let message = spec_block_message(blockdata@, vdf_solution@);
                match r {
                    Some(b) => {
                        &&& spec_sign(sk@, message) == Some(b.signature@)
                        &&& b@ == spec_sealed_block(blockdata@, vdf_solution@, b.signature@, b.hash)
                        &&& b.hash@ == spec_block_hash(blockdata@, vdf_solution@, b.signature@)
                    },
                    None => spec_sign(sk@, message) is None,
                }
            }),
            r matches Some(b) ==> (spec_public_key_of(sk@) == Some(blockdata@.issuer) && (b.signature@.len()
                <= 512 || spec_key_sound(sk@)) ==> spec_block_signature_ok(b@)),
            spec_key_signs(sk@) ==> r is Some,
    {
        match create_block_signature(blockdata, vdf_solution.as_slice(), sk) {
            Some(signature) => {
                let b = Block::new(blockdata, vdf_solution, signature);
                proof {
                    assert(block_data_of(b@) == blockdata@);
                }
                Some(b)
            },
            None => None,
        }
    }

    /// Whether the issuer's signature verifies.
    pub fn verify_signature(&self) -> (r: bool)
        ensures
            r == spec_block_signature_ok(self@),
    {
        let data = self.to_blockdata();
        let buf = block_to_buf_for_signature(&data, self.vdf_solution.as_slice());
        self.issuer.verify(buf.as_slice(), &self.signature)
    }

    /// Whether the delay proof verifies for the given delay.
    pub fn verify_vdf_solution(&self, difficulty: u64) -> (r: bool)
        ensures
            r == spec_block_vdf_ok(self@, difficulty),
    {
        let data = self.to_blockdata();
        let buf = block_to_buf_for_vdf(&data);
        verify_solution(difficulty, buf.as_slice(), self.vdf_solution.as_slice())
    }

    pub fn get_block_height(&self) -> (r: u64)
        ensures
            r == self.index,
    {
        self.index
    }

    fn to_blockdata(&self) -> (r: BlockData<'_>)
        ensures
            r@ == block_data_of(self@),
    {
        BlockData::new(
            self.index,
            self.timestamp,
            self.transactions.as_slice(),
            &self.beacon,
            &self.issuer,
            self.previous_hash,
        )
    }

    /// The digest that this block's content, proof and signature give.
    pub fn calculate_hash(&self) -> (r: Hashed)
        ensures
            r@ == spec_block_hash(block_data_of(self@), self.vdf_solution@, self.signature@),
    {
        let data = self.to_blockdata();
        calculate_hash(&data, self.vdf_solution.as_slice(), self.signature.clone())
    }
}

/// The first block of every chain.
pub fn genesis_block() -> (r: Block)
    ensures
        spec_is_genesis(r@),
{
    let pk = PK { der: GENESIS_ISSUER.to_string() };
    let transactions: Vec<Transaction> = Vec::new();
    let beacon = Beacon { values: Vec::new() };
    let blockdata = BlockData::new(0, 0, transactions.as_slice(), &beacon, &pk, [0u8; 32]);
    let b = Block::new(&blockdata, Vec::new(), SignatureWrapper::default());
    proof {
        assert(b@.transactions =~= Seq::<TxView>::empty());
        assert(b@.beacon =~= Seq::<i32>::empty());
        assert(b@.vdf_solution =~= Seq::<u8>::empty());
        assert(b@.signature =~= Seq::<u8>::empty());
        assert(b.previous_hash@ =~= Seq::new(32, |i: int| 0u8));
    }
    b
}

/// Whether a block is the first block of every chain.
pub fn is_genesis_block(block: &Block) -> (r: bool)
    ensures
        r == spec_is_genesis(block@),
{
    let g = genesis_block();
    if block.index != 0 || block.timestamp != 0 || block.transactions.len() != 0
        || block.beacon.values.len() != 0 || block.vdf_solution.len() != 0
        || block.signature.bytes.len() != 0 || !hashes_equal(&block.previous_hash, &g.previous_hash)
        || block.issuer.der != g.issuer.der || !hashes_equal(&block.hash, &g.hash) {
        proof {
            if spec_is_genesis(block@) {
                assert(block.previous_hash@ =~= g.previous_hash@);
                vstd::array::axiom_array_ext_equal(block.previous_hash, g.previous_hash);
                assert(block@.transactions =~= g@.transactions);
                assert(block@.beacon =~= g@.beacon);
                assert(block_data_of(block@) == block_data_of(g@));
                vstd::array::axiom_array_ext_equal(block.hash, g.hash);
            }
        }
        false
    } else {
        proof {
            assert(block@.transactions =~= Seq::<TxView>::empty());
            assert(block@.beacon =~= Seq::<i32>::empty());
            assert(block@.vdf_solution =~= Seq::<u8>::empty());
            assert(block@.signature =~= Seq::<u8>::empty());
            assert(block.previous_hash == g.previous_hash);
            assert(block_data_of(block@) == block_data_of(g@));
        }
        true
    }
}

/// Lets the delay pass over a block's content and returns the proof.
pub fn solve_block_vdf(blockdata: &BlockDataOwned, difficulty: u64) -> (r: Result<Vec<u8>, VdfError>)
    ensures
        r is Ok <==> valid_difficulty(difficulty),
        r matches Ok(s) ==> s@ == pietrzak_solution(enc_block_data(blockdata@), difficulty),
{
    let data = blockdata.as_borrowed();
    let buf = block_to_buf_for_vdf(&data);
    solve(buf.as_slice(), difficulty)
}

} // verus!
