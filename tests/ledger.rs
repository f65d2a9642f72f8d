use std::collections::HashMap;
use coinledger::block::Block;
use coinledger::blockchain::{BlockChain, ChainError};
use coinledger::merkle_tree::MerkleTree;
use coinledger::proof_of_work::ProofOfWork;
use coinledger::transaction::{packet_sign_content, TXInput, TXOutput, Transaction, TxError};
use coinledger::utxo_set::{get_balance, TXOutputs, UTXOSet};
use coinledger::util::{
    checksum_address, compare_slice_u8, crc32, decode_base58, double_sha256, encode_base58,
    encode_ripemd160, read_i32, read_i64, read_u32, read_u8, sha256, vec_stack_push, write_i32,
    write_i64, write_u32, write_u8,
};
use coinledger::wallet::{Wallet, Wallets};

fn wallet(seed: u8) -> Wallet {
    Wallet::recover_wallet(&[seed; 32]).expect("valid key")
}

fn pkh(w: &Wallet) -> Vec<u8> {
    Wallet::hash_pubkey(&w.public_key)
}

fn values(outs: &[TXOutput]) -> Vec<i64> {
    outs.iter().map(|o| o.value).collect()
}

#[test]
fn txoutputs() {
    let mut map = HashMap::new();
    map.insert(0, TXOutput::new(1000, vec![7u8; 20]));
    let outputs = TXOutputs::new(map);
    assert_eq!(outputs.outputs.len(), 1);
    assert_eq!(outputs.outputs.get(&0).unwrap().value, 1000);
}

#[test]
fn test_bin_op() {
    let test_i32 = 1 << 30;
    let write_i32_res = write_i32(test_i32);
    assert_eq!(read_i32(&write_i32_res), test_i32);

    let test_i64 = 1 << 63;
    let write_i64_res = write_i64(test_i64);
    assert_eq!(read_i64(&write_i64_res), test_i64);
}

#[test]
fn readers_invert_writers() {
    assert_eq!(read_u32(&write_u32(0xdead_beef)), 0xdead_beef);
    assert_eq!(read_i32(&write_i32(-5)), -5);
    assert_eq!(read_i64(&write_i64(-1)), -1);
    assert_eq!(read_u8(&write_u8(200)), 200);
    assert_eq!(read_i64(&[0, 0, 0, 0, 0, 0, 1, 0]), 256);
}

#[test]
fn test_compare() {
    let s1 = [
        1, 206, 137, 99, 239, 57, 212, 134, 92, 105, 90, 64, 29, 64, 152, 90, 38, 111, 49, 250, 0,
        60, 219, 82, 167, 191, 179, 42, 173, 234, 43, 86, 95, 115, 98, 108, 251, 120, 86, 167, 75,
        128, 253, 228, 239,
    ];
    let s2 = [
        1, 206, 137, 99, 239, 57, 212, 134, 92, 105, 90, 64, 29, 64, 152, 90, 38, 111, 49, 250, 0,
        60, 219, 82, 167, 191, 179, 42, 173, 234, 43, 86, 95, 115, 98, 108, 251, 120, 86, 167, 75,
        128, 253, 228, 239,
    ];
    assert_eq!(s1.len(), s2.len());

    assert!(compare_slice_u8(&s1, &s2));

    let s2 = [31, 254, 100, 67, 198, 7, 126, 136, 53, 144, 173, 193, 233, 118, 113, 198, 218, 220, 70, 61];
    let s1 = [75, 137, 91, 42, 254, 205, 222, 47, 210, 83, 130, 161, 129, 218, 136, 215, 116, 211, 90, 251];
    assert!(!compare_slice_u8(&s1, &s2));
}

#[test]
fn fixed_width_encodings() {
    assert_eq!(write_i64(1), vec![0, 0, 0, 0, 0, 0, 0, 1]);
    assert_eq!(write_i64(-1), vec![255; 8]);
    assert_eq!(write_i64(i64::MIN), vec![128, 0, 0, 0, 0, 0, 0, 0]);
    assert_eq!(write_i32(1 << 30), vec![64, 0, 0, 0]);
    assert_eq!(write_u32(0x01020304), vec![1, 2, 3, 4]);
    assert_eq!(write_u8(9), vec![9]);
    let mut v = vec![2u8, 3];
    vec_stack_push(&mut v, 1);
    assert_eq!(v, vec![1, 2, 3]);
}

#[test]
fn digests_are_known_values() {
    let empty = sha256(&[]);
    assert_eq!(
        empty,
        vec![
            0xe3, 0xb0, 0xc4, 0x42, 0x98, 0xfc, 0x1c, 0x14, 0x9a, 0xfb, 0xf4, 0xc8, 0x99, 0x6f, 0xb9,
            0x24, 0x27, 0xae, 0x41, 0xe4, 0x64, 0x9b, 0x93, 0x4c, 0xa4, 0x95, 0x99, 0x1b, 0x78, 0x52,
            0xb8, 0x55
        ]
    );
    assert_eq!(double_sha256(b"abc"), sha256(&sha256(b"abc")));
    assert_eq!(checksum_address(b"payload").len(), 4);
}

#[test]
fn merkle_root_of_single_item_pairs_it_with_itself() {
    let item = b"one transaction".to_vec();
    let tree = MerkleTree::new_merkle_tree(vec![item.clone()]);
    let leaf = sha256(&item);
    let mut both = leaf.clone();
    both.extend_from_slice(&leaf);
    assert_eq!(tree.root.unwrap().data, sha256(&both));
}

#[test]
fn merkle_root_of_three_items_duplicates_the_last() {
    let items = vec![b"a".to_vec(), b"b".to_vec(), b"c".to_vec()];
    let tree = MerkleTree::new_merkle_tree(items);
    let (a, b, c) = (sha256(b"a"), sha256(b"b"), sha256(b"c"));
    let ab = sha256(&[a, b].concat());
    let cc = sha256(&[c.clone(), c].concat());
    assert_eq!(tree.root.unwrap().data, sha256(&[ab, cc].concat()));
}

#[test]
fn coinbase_id_is_its_content_hash() {
    let tx = Transaction::new_coinbase_tx(vec![1u8; 20], b"genesis".to_vec());
    assert!(tx.is_coinbase());
    assert_eq!(tx.id, tx.hash());
    assert_eq!(tx.vout.len(), 1);
    assert_eq!(tx.vout[0].value, 10);
    assert_eq!(tx.vin[0].pub_key, b"genesis".to_vec());
    let again = tx.clone();
    assert_eq!(again.hash(), tx.id);
}

#[test]
fn coinbase_without_data_carries_random_hex() {
    let tx = Transaction::new_coinbase_tx(vec![1u8; 20], Vec::new());
    assert_eq!(tx.vin[0].pub_key.len(), 64);
    assert!(tx.vin[0].pub_key.iter().all(|c| c.is_ascii_hexdigit()));
    assert_eq!(tx.id, tx.hash());
}

#[test]
fn mined_block_validates() {
    let cb = Transaction::new_coinbase_tx(vec![2u8; 20], b"data".to_vec());
    let block = Block::new_at(vec![cb], vec![9u8; 32], 3, 1234).expect("mined");
    assert_eq!(block.hash[0], 0);
    assert_eq!(block.hash[1], 0);
    assert_eq!(block.height, 3);
    let pow = ProofOfWork::new_proof_of_work(block.clone());
    assert!(pow.validate());
    assert_eq!(sha256(&pow.prepare_data(block.nonce)), block.hash);
    let mut tampered = block.clone();
    tampered.timestamp += 1;
    let pow = ProofOfWork::new_proof_of_work(tampered);
    let h = sha256(&pow.prepare_data(block.nonce));
    assert_eq!(pow.validate(), h[0] == 0 && h[1] == 0);
}

#[test]
fn genesis_pays_subsidy_and_transfer_leaves_change() {
    let a = wallet(1);
    let b = wallet(2);
    let mut chain = BlockChain::create_blockchain_at(pkh(&a), b"genesis".to_vec(), 1000).unwrap();
    let mut utxo = UTXOSet::new();
    utxo.reindex(&chain);
    assert_eq!(values(&utxo.find_utxo(&pkh(&a))), vec![10]);
    assert_eq!(get_balance(&utxo, &pkh(&a)), 10);

    let tx = Transaction::new_utxo_transaction(&a, pkh(&b), 4, &utxo, &chain, &Vec::new()).unwrap();
    assert_eq!(tx.vin.len(), 1);
    assert_eq!(values(&tx.vout), vec![4, 6]);
    assert!(chain.verify_transaction(&tx));

    let (block, rejected) = chain.mine_block_at(&vec![tx.clone()], 1010).unwrap();
    assert!(rejected.is_empty());
    assert_eq!(block.height, 1);
    assert_eq!(chain.get_best_height(), 1);
    assert_eq!(chain.get_tip(), block.hash);
    utxo.update(&block);

    assert_eq!(values(&utxo.find_utxo(&pkh(&b))), vec![4]);
    assert_eq!(values(&utxo.find_utxo(&pkh(&a))), vec![6]);
    let genesis_tx = &chain.iter()[1].transactions[0];
    assert!(utxo.utxo(&genesis_tx.id).is_none());
    assert_eq!(utxo.utxo(&tx.id).unwrap().outputs.len(), 2);
    assert_eq!(utxo.utxo(&tx.id).unwrap().outputs.get(&1).unwrap().value, 6);
    assert_eq!(utxo.count_transactions(), 1);

    let mut rebuilt = UTXOSet::new();
    rebuilt.reindex(&chain);
    assert_eq!(get_balance(&rebuilt, &pkh(&a)), 6);
    assert_eq!(get_balance(&rebuilt, &pkh(&b)), 4);
}

#[test]
fn transfer_beyond_balance_is_refused() {
    let a = wallet(1);
    let b = wallet(2);
    let chain = BlockChain::create_blockchain_at(pkh(&a), b"genesis".to_vec(), 1000).unwrap();
    let mut utxo = UTXOSet::new();
    utxo.reindex(&chain);
    let r = Transaction::new_utxo_transaction(&a, pkh(&b), 11, &utxo, &chain, &Vec::new());
    assert_eq!(r.err(), Some(ChainError::InsufficientFunds));
    let neg = Transaction::new_utxo_transaction(&a, pkh(&b), -1, &utxo, &chain, &Vec::new()).unwrap();
    assert!(neg.vin.is_empty());
    assert_eq!(values(&neg.vout), vec![-1, 1]);
    let zero = Transaction::new_utxo_transaction(&a, pkh(&b), 0, &utxo, &chain, &Vec::new()).unwrap();
    assert!(zero.vin.is_empty());
    assert_eq!(values(&zero.vout), vec![0]);
    let empty = UTXOSet::new();
    assert!(Transaction::new_utxo_transaction(&a, pkh(&b), 0, &empty, &chain, &Vec::new()).is_ok());
    let (total, taken) = utxo.find_spend_able_outputs(&pkh(&a), 5, &Vec::new());
    assert_eq!(total, 10);
    assert_eq!(taken.len(), 1);
    let excluded = vec![taken[0].clone()];
    let (total, taken) = utxo.find_spend_able_outputs(&pkh(&a), 5, &excluded);
    assert_eq!(total, 0);
    assert!(taken.is_empty());
}

#[test]
fn signatures_verify_and_tampering_fails() {
    let a = wallet(1);
    let b = wallet(2);
    let chain = BlockChain::create_blockchain_at(pkh(&a), b"genesis".to_vec(), 1000).unwrap();
    let mut utxo = UTXOSet::new();
    utxo.reindex(&chain);
    let tx = Transaction::new_utxo_transaction(&a, pkh(&b), 4, &utxo, &chain, &Vec::new()).unwrap();
    let prev = chain.find_transaction(&tx.vin[0].txid).unwrap();
    assert!(tx.verify(&vec![prev.clone()]));

    let mut bad_sig = tx.clone();
    let last = bad_sig.vin[0].signature.len() - 1;
    bad_sig.vin[0].signature[last] ^= 1;
    assert!(!bad_sig.verify(&vec![prev.clone()]));

    let mut bad_prev = prev.clone();
    bad_prev.vout[0].pub_key_hash[0] ^= 1;
    assert!(!tx.verify(&vec![bad_prev]));

    assert!(!tx.verify(&Vec::new()));

    let mut unsigned = tx.clone();
    assert_eq!(unsigned.sign(&[0u8; 32], &vec![prev.clone()]), Err(TxError::InvalidSecretKey));
    assert_eq!(unsigned.sign(&a.secret_key, &Vec::new()), Err(TxError::PrevTxNotFound));
    unsigned.vin[0].vout = 5;
    assert_eq!(unsigned.sign(&a.secret_key, &vec![prev]), Err(TxError::BadOutputRef));
}

#[test]
fn trimmed_copy_clears_signing_material() {
    let input = TXInput::new(vec![1, 2], 0, vec![3, 4], vec![5, 6]);
    let tx = Transaction { id: vec![9], vin: vec![input], vout: vec![TXOutput::new(1, vec![7])] };
    let t = tx.trimmed_copy();
    assert!(t.vin[0].signature.is_empty());
    assert!(t.vin[0].pub_key.is_empty());
    assert_eq!(t.vin[0].txid, vec![1, 2]);
    assert_eq!(t.id, vec![9]);
    assert!(tx.vin[0].uses_key(&[5, 6]));
    assert!(!tx.vin[0].uses_key(&[5, 7]));
    assert!(tx.vout[0].is_locked_with_key(&[7]));
    assert!(!tx.vout[0].is_locked_with_key(&[8]));
}

#[test]
fn adding_a_block_twice_is_a_no_op() {
    let a = wallet(1);
    let mut chain = BlockChain::create_blockchain_at(pkh(&a), b"genesis".to_vec(), 1000).unwrap();
    let cb = Transaction::new_coinbase_tx(pkh(&a), b"second".to_vec());
    let block = Block::new_at(vec![cb], chain.get_tip(), 1, 1100).unwrap();
    assert_eq!(chain.add_block(block.clone()), Ok(()));
    assert_eq!(chain.get_block_hashes().len(), 2);
    assert_eq!(chain.add_block(block.clone()), Ok(()));
    assert_eq!(chain.get_block_hashes().len(), 2);
    assert_eq!(chain.all_blocks().len(), 2);
    assert_eq!(chain.get_tip(), block.hash);
}

#[test]
fn block_at_tip_height_is_a_fork() {
    let a = wallet(1);
    let mut chain = BlockChain::create_blockchain_at(pkh(&a), b"genesis".to_vec(), 1000).unwrap();
    let tip = chain.get_tip();
    let cb = Transaction::new_coinbase_tx(pkh(&a), b"rival".to_vec());
    let rival = Block::new_at(vec![cb], tip.clone(), 0, 1100).unwrap();
    assert_eq!(chain.add_block(rival), Err(ChainError::Fork));
    assert_eq!(chain.get_tip(), tip);
}

#[test]
fn block_rules_are_checked_in_order() {
    let a = wallet(1);
    let mut chain = BlockChain::create_blockchain_at(pkh(&a), b"genesis".to_vec(), 1000).unwrap();
    let tip = chain.get_tip();
    let mk = |prev: Vec<u8>, height: i64, ts: i64, tag: &[u8]| {
        let cb = Transaction::new_coinbase_tx(vec![3u8; 20], tag.to_vec());
        Block::new_at(vec![cb], prev, height, ts).unwrap()
    };
    assert_eq!(chain.add_block(mk(tip.clone(), -1, 1100, b"low")), Err(ChainError::HeightTooSmall));
    assert_eq!(chain.add_block(mk(tip.clone(), 2, 1100, b"high")), Err(ChainError::HeightTooBig));
    assert_eq!(chain.add_block(mk(tip.clone(), 1, 1000, b"early")), Err(ChainError::TimestampTooEarly));
    assert_eq!(chain.add_block(mk(tip.clone(), 1, 2201, b"late")), Err(ChainError::TimestampTooLate));
    assert_eq!(chain.add_block(mk(vec![1u8; 32], 1, 1100, b"prev")), Err(ChainError::PrevHashMismatch));
    assert_eq!(chain.add_block(mk(tip.clone(), 1, 2200, b"edge")), Ok(()));
    assert_eq!(chain.get_best_height(), 1);
}

#[test]
fn opening_a_store_needs_its_tip() {
    let a = wallet(1);
    let chain = BlockChain::create_blockchain_at(pkh(&a), b"genesis".to_vec(), 1000).unwrap();
    let blocks = chain.all_blocks();
    assert!(BlockChain::new_blockchain(blocks.clone(), chain.get_tip()).is_ok());
    assert_eq!(BlockChain::new_blockchain(blocks.clone(), vec![0u8; 32]).err(), Some(ChainError::NoTip));
    let twice = vec![blocks[0].clone(), blocks[0].clone()];
    assert_eq!(BlockChain::new_blockchain(twice, chain.get_tip()).err(), Some(ChainError::DuplicateHash));
}

#[test]
fn addresses_round_trip_through_validation() {
    let a = wallet(1);
    let addr = a.get_address();
    assert!(Wallet::validate_address(&addr));
    let mut out = TXOutput::new(5, Vec::new());
    assert!(out.lock(&addr));
    assert_eq!(out.pub_key_hash, pkh(&a));
    assert!(!Wallet::validate_address("0OIl"));
    assert!(!out.lock("0OIl"));
    assert_eq!(a.public_key.len(), 65);
}

#[test]
fn display_rows_of_a_transaction() {
    let input = TXInput::new(vec![1], 0, Vec::new(), vec![0x11; 20]);
    let tx = Transaction { id: vec![0xab], vin: vec![input], vout: vec![TXOutput::new(4, vec![2])] };
    let (id, inputs, outputs) = tx.to_string(true);
    assert_eq!(id, b"ab".to_vec());
    assert_eq!(inputs.len(), 2);
    let header: Vec<Vec<u8>> = ["in's idx", "in's txid", "in's ref out's idx", "signature", "PubKey"]
        .iter()
        .map(|c| c.as_bytes().to_vec())
        .collect();
    assert_eq!(inputs[0], header);
    assert_eq!(inputs[1][0], b"0".to_vec());
    assert_eq!(inputs[1][1], b"01".to_vec());
    assert_eq!(inputs[1][2], b"0".to_vec());
    assert_eq!(inputs[1][3], Vec::<u8>::new());
    let mut cut = b"11".repeat(16);
    cut.extend_from_slice(b"...");
    assert_eq!(inputs[1][4], cut);
    assert_eq!(
        outputs,
        vec![
            vec![b"out's idx".to_vec(), b"out's value".to_vec(), b"out's script".to_vec()],
            vec![b"0".to_vec(), b"4".to_vec(), b"02".to_vec()],
        ]
    );
    let (_, full, _) = tx.to_string(false);
    assert_eq!(full[1][4], b"11".repeat(20));
    let neg = Transaction { id: vec![], vin: vec![], vout: vec![TXOutput::new(-12, vec![0xff])] };
    let (_, _, rows) = neg.to_string(false);
    assert_eq!(rows[1], vec![b"0".to_vec(), b"-12".to_vec(), b"ff".to_vec()]);
}

#[test]
fn outside_encodings_give_known_values() {
    assert_eq!(crc32(b"123456789"), 0xCBF4_3926);
    assert_eq!(
        encode_ripemd160(b""),
        vec![
            0x9c, 0x11, 0x85, 0xa5, 0xc5, 0xe9, 0xfc, 0x54, 0x61, 0x28, 0x08, 0x97, 0x7e, 0xe8,
            0xf5, 0x48, 0xb2, 0x25, 0x8d, 0x31
        ]
    );
    assert_eq!(encode_base58(&[0, 0, 1]), "112".to_string());
    assert_eq!(decode_base58("112"), Some(vec![0, 0, 1]));
    assert_eq!(decode_base58("0"), None);
    assert_eq!(Wallet::hash_pubkey(&[1, 2, 3]).len(), 20);
    assert_eq!(Wallet::hash_pubkey(&[1, 2, 3]), encode_ripemd160(&sha256(&[1, 2, 3])));
}

#[test]
fn clock_stamped_blocks_and_chains() {
    let a = wallet(1);
    let chain = BlockChain::create_blockchain(pkh(&a), b"genesis".to_vec()).unwrap();
    assert_eq!(chain.get_best_height(), 0);
    let genesis = chain.iter()[0].clone();
    assert!(genesis.timestamp > 1_500_000_000);
    let cb = Transaction::new_coinbase_tx(pkh(&a), b"next".to_vec());
    let (next, _) = chain.mine_block2(&vec![cb]).unwrap();
    assert_eq!(next.height, 1);
    assert_eq!(next.prev_block_hash, genesis.hash);
    assert!(next.timestamp >= genesis.timestamp);
    let cb = Transaction::new_coinbase_tx(pkh(&a), b"alone".to_vec());
    let solo = Block::new(vec![cb], Vec::new(), 0).unwrap();
    assert!(ProofOfWork::new_proof_of_work(solo).validate());
}

#[test]
fn wallet_set_finds_wallets_by_address() {
    let mut ws = Wallets::new();
    let addr = ws.create_wallet().unwrap();
    let all = ws.list_address();
    assert_eq!(all.len(), 2);
    assert_eq!(all[1], addr);
    let w = ws.get_wallet(&addr).unwrap();
    assert_eq!(w.get_address(), addr);
    assert!(Wallet::validate_address(&addr));
    assert!(ws.get_wallet(&"1111".to_string()).is_none());
}

#[test]
fn oversized_block_is_refused() {
    let a = wallet(1);
    let mut chain = BlockChain::create_blockchain_at(pkh(&a), b"genesis".to_vec(), 1000).unwrap();
    let big = Transaction::new_coinbase_tx(pkh(&a), vec![7u8; 1024 * 1024]);
    let block = Block::new_at(vec![big], chain.get_tip(), 1, 1100).unwrap();
    assert!(block.serialize().len() > 1024 * 1024);
    assert_eq!(chain.add_block(block), Err(ChainError::BlockTooLarge));
    assert_eq!(chain.get_best_height(), 0);
}

#[test]
fn signing_against_the_chain_reports_missing_and_bad_keys() {
    let a = wallet(1);
    let chain = BlockChain::create_blockchain_at(pkh(&a), b"genesis".to_vec(), 1000).unwrap();
    let mut utxo = UTXOSet::new();
    utxo.reindex(&chain);
    let tx = Transaction::new_utxo_transaction(&a, vec![1u8; 20], 2, &utxo, &chain, &Vec::new()).unwrap();
    let mut unknown = tx.clone();
    unknown.vin[0].txid = vec![3u8; 32];
    assert_eq!(chain.sign_transaction(&mut unknown, &a.secret_key), Err(ChainError::TxNotFound));
    let mut again = tx.clone();
    assert_eq!(
        chain.sign_transaction(&mut again, &[0u8; 32]),
        Err(ChainError::Signing(TxError::InvalidSecretKey))
    );
    assert_eq!(again.vin[0].signature, tx.vin[0].signature);
    assert!(!chain.verify_transaction(&unknown));
}

#[test]
fn fresh_wallets_have_uncompressed_keys() {
    let w = Wallet::new();
    assert_eq!(w.public_key.len(), 65);
    assert_eq!(w.secret_key.len(), 32);
    assert!(Wallet::validate_address(&w.get_address()));
}

#[test]
fn rebuild_counts_spends_inside_a_block() {
    let a = wallet(1);
    let b = wallet(2);
    let c = wallet(3);
    let mut chain = BlockChain::create_blockchain_at(pkh(&a), b"genesis".to_vec(), 1000).unwrap();
    let mut utxo = UTXOSet::new();
    utxo.reindex(&chain);
    let tx1 = Transaction::new_utxo_transaction(&a, pkh(&b), 4, &utxo, &chain, &Vec::new()).unwrap();
    let input = TXInput::new(tx1.id.clone(), 0, Vec::new(), b.public_key.clone());
    let mut tx2 = Transaction { id: Vec::new(), vin: vec![input], vout: vec![TXOutput::new(4, pkh(&c))] };
    tx2.id = tx2.hash();
    tx2.sign(&b.secret_key, &vec![tx1.clone()]).unwrap();
    assert!(tx2.verify(&vec![tx1.clone()]));
    let block = Block::new_at(vec![tx1.clone(), tx2.clone()], chain.get_tip(), 1, 1100).unwrap();
    chain.add_block(block.clone()).unwrap();

    let mut updated = UTXOSet::new();
    updated.reindex(&BlockChain::new_blockchain(vec![chain.iter()[1].clone()], chain.iter()[1].hash.clone()).unwrap());
    updated.update(&block);
    let mut rebuilt = UTXOSet::new();
    rebuilt.reindex(&chain);
    for r in [&updated, &rebuilt] {
        assert!(r.find_utxo(&pkh(&b)).is_empty());
        assert_eq!(values(&r.find_utxo(&pkh(&c))), vec![4]);
        assert_eq!(values(&r.find_utxo(&pkh(&a))), vec![6]);
        assert!(!r.has_output(&tx1.id, 0));
    }
}

#[test]
fn mining_leaves_out_invalid_transactions_and_reports_them() {
    let a = wallet(1);
    let mut chain = BlockChain::create_blockchain_at(pkh(&a), b"genesis".to_vec(), 1000).unwrap();
    let mut utxo = UTXOSet::new();
    utxo.reindex(&chain);
    let good = Transaction::new_utxo_transaction(&a, vec![5u8; 20], 3, &utxo, &chain, &Vec::new()).unwrap();
    let spend = TXInput::new(vec![9u8; 32], 0, vec![1], vec![2]);
    let bogus = Transaction { id: vec![5u8; 32], vin: vec![spend], vout: vec![TXOutput::new(1, vec![3u8; 20])] };
    let (block, rejected) = chain.mine_block_at(&vec![bogus.clone(), good.clone()], 1100).unwrap();
    assert_eq!(rejected, vec![bogus.id.clone()]);
    assert_eq!(block.transactions.len(), 1);
    assert_eq!(block.transactions[0].id, good.id);
    assert_eq!(chain.get_tip(), block.hash);
    assert_eq!(chain.mine_block_at(&vec![bogus], 1200).err(), Some(ChainError::InvalidTransaction));
    assert_eq!(chain.get_best_height(), 1);
}

#[test]
fn chain_created_without_data_gets_random_payload() {
    let a = wallet(1);
    let chain = BlockChain::create_blockchain_at(pkh(&a), Vec::new(), 1000).unwrap();
    let genesis = chain.iter()[0].clone();
    assert_eq!(genesis.transactions[0].vin[0].pub_key.len(), 64);
    assert_eq!(genesis.transactions[0].vout[0].value, 10);
}

#[test]
fn merkle_root_is_32_bytes() {
    let cb = Transaction::new_coinbase_tx(vec![2u8; 20], b"x".to_vec());
    let block = Block::new_at(vec![cb.clone(), cb], Vec::new(), 0, 5).unwrap();
    assert_eq!(block.hash_transactions().len(), 32);
}

#[derive(Debug)]
struct DebugInput {
    txid: Vec<u8>,
    vout: isize,
    signature: Vec<u8>,
    pub_key: Vec<u8>,
}

#[derive(Debug)]
struct DebugOutput {
    value: isize,
    pub_key_hash: Vec<u8>,
}

#[derive(Debug)]
#[allow(dead_code)]
struct DebugTx {
    id: Vec<u8>,
    vin: Vec<DebugInput>,
    vout: Vec<DebugOutput>,
}

#[test]
fn signing_text_matches_the_debug_layout() {
    let input = TXInput::new(vec![1, 200], -1, Vec::new(), vec![0, 7]);
    let input2 = TXInput::new(Vec::new(), 3, vec![9], Vec::new());
    let tx = Transaction {
        id: vec![255],
        vin: vec![input, input2],
        vout: vec![TXOutput::new(10, vec![4, 5, 6]), TXOutput::new(-2, Vec::new())],
    };
    let expected = DebugTx {
        id: vec![255],
        vin: vec![
            DebugInput { txid: vec![1, 200], vout: -1, signature: Vec::new(), pub_key: vec![0, 7] },
            DebugInput { txid: Vec::new(), vout: 3, signature: vec![9], pub_key: Vec::new() },
        ],
        vout: vec![
            DebugOutput { value: 10, pub_key_hash: vec![4, 5, 6] },
            DebugOutput { value: -2, pub_key_hash: Vec::new() },
        ],
    };
    let debug_text = format!("{:?}", expected)
        .replace("DebugTx", "Transaction")
        .replace("DebugInput", "TXInput")
        .replace("DebugOutput", "TXOutput");
    assert_eq!(String::from_utf8(packet_sign_content(&tx)).unwrap(), debug_text);
    let empty = Transaction { id: Vec::new(), vin: Vec::new(), vout: Vec::new() };
    assert_eq!(
        String::from_utf8(packet_sign_content(&empty)).unwrap(),
        "Transaction { id: [], vin: [], vout: [] }".to_string()
    );
}
