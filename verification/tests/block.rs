use btfy::beacon::Beacon;
use btfy::block::{Block, MAX_TRANSACTIONS_PER_BLOCK};
use btfy::coinbase::coinbase_transaction;
use btfy::key::{generate_sk, Address, SignatureWrapper, SK};
use btfy::transaction::Transaction;
use btfy::utxo::{TransactionIn, TransactionOut, UnspentTransaction};

fn keypair() -> (Address, SK) {
    let sk = generate_sk(512).unwrap();
    let pk = sk.to_pk().unwrap();
    (pk, sk)
}

const TEST_VDF_DIFFICULTY: u64 = 10;

#[test]
fn get_unspent_transactions_adds_fee_to_miner_utxo() {
    let (sender, sk) = keypair();
    let (recipient, _) = keypair();
    let (miner, _) = keypair();

    let tx = Transaction::new_with_creating_signature(
        &sender,
        vec![TransactionOut { address: recipient, amount: 10 }],
        vec![TransactionIn { unspent_id: 1 }],
        2,
        &sk,
    )
    .unwrap();

    let prev = vec![UnspentTransaction { id: 1, address: sender, amount: 12 }];

    let b = Block {
        index: 1,
        timestamp: 1,
        transactions: vec![coinbase_transaction(&miner, 1), tx],
        beacon: Beacon { values: vec![] },
        vdf_solution: vec![],
        previous_hash: [0; 32],
        issuer: miner.clone(),
        signature: SignatureWrapper::default(),
        hash: [1; 32],
    };

    let (next, _) = b.get_unspent_transactions((prev, 2));

    assert!(next.iter().any(|u| u.address == miner && u.amount == 2));
}

#[test]
fn is_invalid_when_too_many_transactions() {
    let (miner, _) = keypair();
    let transactions = vec![coinbase_transaction(&miner, 1); MAX_TRANSACTIONS_PER_BLOCK + 1];

    let block = Block {
        index: 1,
        timestamp: 1,
        transactions,
        beacon: Beacon { values: vec![] },
        vdf_solution: vec![],
        previous_hash: [0; 32],
        issuer: miner,
        signature: SignatureWrapper::default(),
        hash: [1; 32],
    };

    assert!(!block.is_valid(&[], TEST_VDF_DIFFICULTY));
}
