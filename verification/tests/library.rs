use btfy::beacon::{
    assemble_beacon, choose_locations, is_valid_beacon, record_fetched_beacon, Beacon, BeaconCache, BeaconKey,
    InMemoryBeaconCache,
};
use btfy::block::{genesis_block, is_genesis_block, Block, BlockData, GENESIS_ISSUER};
use btfy::chain::Chain;
use btfy::event::{events_after_broadcast, events_after_mining, Event};
use btfy::p2p::Peer;
use btfy::coinbase::{coinbase_address, coinbase_amount, coinbase_transaction, COINBASE_AMOUNT};
use btfy::config::Config;
use btfy::hex::{hex_decode, hex_encode};
use btfy::key::{generate_sk, Address, SignatureWrapper, SK};
use btfy::transaction::Transaction;
use btfy::utxo::{TransactionIn, TransactionOut, UnspentTransaction};
use btfy::validation::{is_valid_address, is_valid_coinbase_transaction};
use btfy::vdf::{solution_to_string, solve, verify_solution, VdfError};
use sha2::{Digest, Sha256};

fn keypair() -> (Address, SK) {
    let sk = generate_sk(512).unwrap();
    let pk = sk.to_pk().unwrap();
    (pk, sk)
}

fn dummy_block(prev: &Block, txs: Vec<Transaction>) -> Block {
    Block {
        index: prev.index + 1,
        timestamp: prev.timestamp + 1,
        transactions: txs,
        beacon: Beacon { values: vec![1] },
        vdf_solution: vec![],
        previous_hash: prev.hash,
        issuer: prev.issuer.clone(),
        signature: SignatureWrapper::default(),
        hash: [prev.index as u8 + 1; 32],
    }
}

#[test]
fn hex_encode_writes_two_lower_case_digits_per_byte() {
    assert_eq!(hex_encode(&[0x00, 0xab, 0xff, 0x30]), "00abff30");
    assert_eq!(hex_encode(&[]), "");
}

#[test]
fn hex_decode_reverses_encode_and_refuses_bad_text() {
    let bytes = vec![1u8, 2, 250, 0, 48];
    assert_eq!(hex_decode(&hex_encode(&bytes)), Some(bytes));
    assert_eq!(hex_decode("ABff"), Some(vec![0xab, 0xff]));
    assert_eq!(hex_decode("abc"), None);
    assert_eq!(hex_decode("zz"), None);
    assert_eq!(hex_decode(""), Some(vec![]));
}

#[test]
fn genesis_hash_is_sha256_of_its_encoding() {
    let g = genesis_block();
    let mut buf: Vec<u8> = Vec::new();
    buf.extend_from_slice(&0u64.to_le_bytes());
    buf.extend_from_slice(&0u64.to_le_bytes());
    buf.extend_from_slice(&0u64.to_le_bytes());
    buf.extend_from_slice(&0u64.to_le_bytes());
    buf.extend_from_slice(&(GENESIS_ISSUER.len() as u64).to_le_bytes());
    buf.extend_from_slice(GENESIS_ISSUER.as_bytes());
    buf.extend_from_slice(&[0u8; 32]);
    buf.extend_from_slice(&0u64.to_le_bytes());
    buf.extend_from_slice(&0u64.to_le_bytes());
    let expected: [u8; 32] = Sha256::digest(&buf).into();
    assert_eq!(g.hash, expected);
    assert_eq!(g.calculate_hash(), g.hash);
    assert!(is_genesis_block(&g));
}

#[test]
fn changing_a_block_changes_its_hash() {
    let g = genesis_block();
    let mut other = dummy_block(&g, vec![]);
    let h1 = other.calculate_hash();
    other.timestamp += 1;
    assert_ne!(other.calculate_hash(), h1);
    assert!(!is_genesis_block(&other));
}

#[test]
fn public_key_is_a_valid_address_and_stable() {
    let (pk, sk) = keypair();
    assert!(pk.der.starts_with("30"));
    assert!(is_valid_address(&pk));
    assert_eq!(sk.to_pk().unwrap(), pk);
    assert_ne!(pk.der, sk.der);
}

#[test]
fn signature_does_not_verify_under_another_key() {
    let (_, sk) = keypair();
    let (other, _) = keypair();
    let signature = sk.sign(b"message").unwrap();
    assert!(sk.to_pk().unwrap().verify(b"message", &signature));
    assert!(!other.verify(b"message", &signature));
    assert!(!sk.to_pk().unwrap().verify(b"massage", &signature));
}

#[test]
fn address_validity_follows_hex_der_rule() {
    let a = |s: &str| Address { der: s.to_string() };
    assert!(is_valid_address(&a("30")));
    assert!(is_valid_address(&a("30aBcD09")));
    assert!(!is_valid_address(&a("ab30")));
    assert!(!is_valid_address(&a("30zz")));
    assert!(!is_valid_address(&a("3")));
    assert!(!is_valid_address(&a("")));
}

#[test]
fn vdf_refuses_odd_or_short_delays() {
    assert_eq!(solve(b"challenge", 10), Err(VdfError::InvalidIterations));
    assert_eq!(solve(b"challenge", 67), Err(VdfError::InvalidIterations));
    assert!(!verify_solution(10, b"challenge", &[]));
}

#[test]
fn vdf_solution_verifies_for_its_challenge_only() {
    let solution = solve(b"challenge", 66).unwrap();
    assert!(verify_solution(66, b"challenge", &solution));
    assert!(!verify_solution(66, b"other challenge", &solution));
}

#[test]
fn solution_to_string_concatenates_decimal_bytes() {
    assert_eq!(solution_to_string(&[1, 23, 255, 0]), "1232550");
    assert_eq!(solution_to_string(&[]), "");
}

#[test]
fn beacons_agree_within_five_tenths_either_way() {
    let a = Beacon { values: vec![100, 200, 300] };
    let b = Beacon { values: vec![105, 195, 300, 999] };
    let c = Beacon { values: vec![106, 200] };
    assert!(is_valid_beacon(&a, &b));
    assert!(is_valid_beacon(&b, &a));
    assert!(!is_valid_beacon(&a, &c));
    assert!(!is_valid_beacon(&c, &a));
}

#[test]
fn choose_locations_takes_each_hash_byte_modulo_the_count() {
    let mut hash = [0u8; 32];
    for (i, b) in hash.iter_mut().enumerate() {
        *b = (i * 7) as u8;
    }
    let picked = choose_locations(&hash, 5);
    assert_eq!(picked.len(), 32);
    assert_eq!(picked[0], 0);
    assert_eq!(picked[1], 2);
    assert_eq!(picked[3], 1);
    assert!(choose_locations(&hash, 0).is_empty());
}

#[test]
fn assemble_beacon_needs_every_temperature() {
    assert_eq!(assemble_beacon(vec![1, 2], 2), Some(Beacon { values: vec![1, 2] }));
    assert_eq!(assemble_beacon(vec![1], 2), None);
}

#[test]
fn beacon_cache_gives_back_what_was_stored() {
    let mut cache = InMemoryBeaconCache::new();
    let k1 = BeaconKey::new(&[1; 32], 5);
    let k2 = BeaconKey::new(&[1; 32], 6);
    assert_eq!(cache.get(&k1), None);
    cache.insert(k1, Beacon { values: vec![3] });
    assert_eq!(cache.get(&k1), Some(Beacon { values: vec![3] }));
    assert_eq!(cache.get(&k2), None);
    cache.insert(k1, Beacon { values: vec![4] });
    assert_eq!(cache.get(&k1), Some(Beacon { values: vec![4] }));
    assert!(record_fetched_beacon(&mut cache, k2, Some(Beacon { values: vec![7] })));
    assert!(!record_fetched_beacon(&mut cache, BeaconKey::new(&[2; 32], 0), None));
    assert_eq!(cache.get(&k2), Some(Beacon { values: vec![7] }));
}

#[test]
fn coinbase_pays_the_reward_to_the_miner() {
    let (miner, _) = keypair();
    let tx = coinbase_transaction(&miner, 7);
    assert_eq!(tx.sender, coinbase_address());
    assert_eq!(tx.out.len(), 1);
    assert_eq!(tx.out[0].amount, COINBASE_AMOUNT);
    assert_eq!(coinbase_amount(123), 50);
    assert!(tx.tx_in.is_empty());
    assert!(is_valid_coinbase_transaction(&tx, 7));
    let mut bad = tx.clone();
    bad.out[0].amount = 51;
    assert!(!is_valid_coinbase_transaction(&bad, 7));
}

#[test]
fn new_chain_is_valid_and_has_no_unspent_outputs() {
    let c = Chain::new();
    let cache = InMemoryBeaconCache::new();
    assert!(c.is_valid(&cache));
    assert!(c.ids_fit());
    let (utxos, next) = c.get_unspent_transactions();
    assert!(utxos.is_empty());
    assert_eq!(next, 1);
    assert!(!Chain { blocks: vec![] }.is_valid(&cache));
    assert_eq!(Chain { blocks: vec![] }.get_latest_block(), genesis_block());
}

#[test]
fn chain_outputs_get_distinct_ids_and_fees_go_to_the_issuer() {
    let (miner, _) = keypair();
    let (sender, sk) = keypair();
    let g = genesis_block();
    let mut b1 = dummy_block(&g, vec![coinbase_transaction(&sender, 1)]);
    b1.issuer = miner.clone();
    let chain = Chain { blocks: vec![g.clone(), b1.clone()] };
    let tx = chain.generate_transaction(&sender, &miner, 20, &sk, &[], 3).unwrap();
    let mut b2 = dummy_block(&b1, vec![coinbase_transaction(&miner, 2), tx]);
    b2.issuer = miner.clone();
    let chain = Chain { blocks: vec![g, b1, b2] };
    let (utxos, next) = chain.get_unspent_transactions();
    let mut ids: Vec<u64> = utxos.iter().map(|u| u.id).collect();
    ids.sort();
    ids.dedup();
    assert_eq!(ids.len(), utxos.len());
    assert!(utxos.iter().all(|u| u.id >= 1 && u.id < next));
    assert_eq!(next, 8);
    assert!(chain.find_unspent_transaction(1).is_none());
    assert_eq!(chain.get_balance(&sender), 27);
    assert_eq!(chain.get_balance(&miner), 50 + 20 + 3);
    assert_eq!(chain.checked_balance(&miner), Some(73));
    assert_eq!(chain.filter_unspent_transactions_by_address(&sender).len(), 1);
}

#[test]
fn generated_payment_is_valid_against_the_chain() {
    let (sender, sk) = keypair();
    let (recipient, _) = keypair();
    let g = genesis_block();
    let b1 = dummy_block(&g, vec![coinbase_transaction(&sender, 1)]);
    let chain = Chain { blocks: vec![g, b1] };
    let tx = chain.generate_transaction(&sender, &recipient, 20, &sk, &[], 5).unwrap();
    let (utxos, _) = chain.get_unspent_transactions();
    assert!(tx.is_valid(&utxos));
    assert_eq!(tx.calc_total_input_amount(&utxos), tx.total_amount());
    assert_eq!(tx.out[0].amount, 20);
    assert_eq!(tx.out[1].amount, 25);
    assert_eq!(tx.out[1].address, sender);
}

#[test]
fn generated_block_data_puts_the_reward_first() {
    let (miner, sk) = keypair();
    let chain = Chain::new();
    let (other, _) = keypair();
    let pending = vec![coinbase_transaction(&other, 9)];
    let data = chain.generate_next_block_data(&miner, Beacon { values: vec![5] }, pending.clone(), 42);
    assert_eq!(data.index, 1);
    assert_eq!(data.timestamp, 42);
    assert_eq!(data.previous_hash, genesis_block().hash);
    assert_eq!(data.transactions[0], coinbase_transaction(&miner, 1));
    assert_eq!(data.transactions[1], pending[0]);
    let block = chain.generate_next_block(&sk, vec![1, 2, 3], data.clone()).unwrap();
    assert!(block.verify_signature());
    assert_eq!(block.calculate_hash(), block.hash);
    assert_eq!(block.vdf_solution, vec![1, 2, 3]);
    assert!(!block.verify_vdf_solution(10));
}

#[test]
fn block_signature_breaks_when_the_content_changes() {
    let (miner, sk) = keypair();
    let txs = vec![coinbase_transaction(&miner, 1)];
    let beacon = Beacon { values: vec![3] };
    let data = BlockData::new(1, 9, &txs, &beacon, &miner, [7; 32]);
    let mut block = Block::new_with_creating_signature(&data, vec![], &sk).unwrap();
    assert!(block.verify_signature());
    assert_eq!(block.get_block_height(), 1);
    block.timestamp = 10;
    assert!(!block.verify_signature());
}

#[test]
fn transaction_helpers_compute_inputs() {
    let (a, _) = keypair();
    let utxos = vec![
        UnspentTransaction { id: 4, address: a.clone(), amount: 10 },
        UnspentTransaction { id: 5, address: a.clone(), amount: 20 },
    ];
    let tx = Transaction::new(
        a.clone(),
        vec![TransactionOut { address: a.clone(), amount: 1 }],
        vec![TransactionIn { unspent_id: 5 }, TransactionIn { unspent_id: 9 }],
        0,
        SignatureWrapper::default(),
    );
    assert_eq!(tx.calc_total_input_amount(&utxos), 20);
    assert_eq!(TransactionIn { unspent_id: 4 }.get_amount(&utxos), Some(10));
    assert_eq!(TransactionIn { unspent_id: 6 }.get_amount(&utxos), None);
    assert_eq!(utxos[1].to_txin(), TransactionIn { unspent_id: 5 });
    let (u, next) = TransactionOut { address: a.clone(), amount: 8 }.to_unspent(11);
    assert_eq!(u, UnspentTransaction { id: 11, address: a, amount: 8 });
    assert_eq!(next, 12);
}

#[test]
fn config_defaults() {
    let c = Config::default();
    assert!(!c.mining);
    assert!(c.peer.is_empty());
    assert_eq!(c.api_port, 8080);
    assert_eq!(c.p2p_port, 8081);
    assert_eq!(c.beacon_timeout, 10);
    assert!(c.beacon_cmd.is_empty());
    assert_eq!(c.vdf_difficulty, 66);
}

#[test]
fn a_block_sealed_with_its_solved_delay_verifies() {
    let (miner, sk) = keypair();
    let chain = Chain::new();
    let data = chain.generate_next_block_data(&miner, Beacon { values: vec![] }, vec![], 5);
    let solution = btfy::block::solve_block_vdf(&data, btfy::block::VDF_DIFFICULTY).unwrap();
    let block = chain.generate_next_block(&sk, solution.clone(), data.clone()).unwrap();
    assert!(block.verify_vdf_solution(btfy::block::VDF_DIFFICULTY));
    assert!(!block.verify_vdf_solution(10));
    let mut other = block.clone();
    other.timestamp += 1;
    assert!(!other.verify_vdf_solution(btfy::block::VDF_DIFFICULTY));
    let mut garbled = block.clone();
    garbled.vdf_solution = vec![0; 130];
    assert!(!garbled.verify_vdf_solution(btfy::block::VDF_DIFFICULTY));
}

fn plain_out(address: &str, amount: u64) -> TransactionOut {
    TransactionOut { address: Address { der: address.to_string() }, amount }
}

#[test]
fn a_transaction_describes_itself_on_one_line() {
    let tx = Transaction {
        sender: Address { der: "aa".to_string() },
        out: vec![plain_out("bb", 10), plain_out("cc", 5)],
        tx_in: vec![],
        fee: 2,
        signature: SignatureWrapper::default(),
    };
    assert_eq!(tx.describe(), "aa -> bb, cc: 17");
    let single = Transaction {
        sender: Address { der: "aa".to_string() },
        out: vec![plain_out("bb", 1234567890)],
        tx_in: vec![],
        fee: 0,
        signature: SignatureWrapper::default(),
    };
    assert_eq!(single.describe(), "aa -> bb: 1234567890");
    let empty = Transaction {
        sender: Address { der: "aa".to_string() },
        out: vec![],
        tx_in: vec![],
        fee: 0,
        signature: SignatureWrapper::default(),
    };
    assert_eq!(empty.describe(), "aa -> : 0");
}

#[test]
fn block_content_bytes_follow_the_encoding() {
    let data = btfy::block::BlockDataOwned {
        index: 3,
        timestamp: 5,
        transactions: vec![],
        beacon: Beacon { values: vec![] },
        issuer: Address { der: "ab".to_string() },
        previous_hash: [7u8; 32],
    };
    let mut expected: Vec<u8> = Vec::new();
    expected.extend_from_slice(&3u64.to_le_bytes());
    expected.extend_from_slice(&5u64.to_le_bytes());
    expected.extend_from_slice(&0u64.to_le_bytes());
    expected.extend_from_slice(&0u64.to_le_bytes());
    expected.extend_from_slice(&2u64.to_le_bytes());
    expected.extend_from_slice(b"ab");
    expected.extend_from_slice(&[7u8; 32]);
    assert_eq!(data.to_bytes(), expected);
    assert_eq!(data.as_borrowed().to_bytes(), expected);
}

#[test]
fn a_key_of_a_usual_size_always_comes_back() {
    assert!(generate_sk(64).is_some());
    let sk = generate_sk(512).expect("a key");
    assert!(sk.to_pk().is_some());
}

#[test]
fn mining_is_followed_by_the_block_and_a_new_attempt() {
    let g = genesis_block();
    let b = dummy_block(&g, vec![]);
    assert_eq!(
        events_after_mining(Some(b.clone())),
        vec![Event::CompletedMineBlock(b), Event::MineBlock]
    );
    assert_eq!(events_after_mining(None), vec![Event::MineBlock]);
    let lost = vec![Peer::new("10.0.0.1:1")];
    assert_eq!(events_after_broadcast(lost.clone()), vec![Event::RemovePeers(lost)]);
    assert_eq!(events_after_broadcast(vec![]), vec![Event::RemovePeers(vec![])]);
}
