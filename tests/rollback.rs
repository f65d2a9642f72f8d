use coinledger::block::Block;
use coinledger::blockchain::{BlockChain, ChainError};
use coinledger::node::BlockLock;
use coinledger::transaction::{TXInput, TXOutput, Transaction};
use coinledger::utxo_set::{get_balances, UTXOSet};
use coinledger::wallet::Wallet;

fn coinbase(tag: &[u8]) -> Transaction {
    Transaction::new_coinbase_tx(vec![4u8; 20], tag.to_vec())
}

/// A chain of `n` blocks after genesis, each 100 seconds after the last.
fn chain_of(n: i64) -> (BlockChain, Vec<Vec<u8>>) {
    let mut chain = BlockChain::create_blockchain_at(vec![4u8; 20], b"genesis".to_vec(), 1000).unwrap();
    let mut hashes = vec![chain.get_tip()];
    for h in 1..=n {
        let block = Block::new_at(vec![coinbase(&[h as u8])], chain.get_tip(), h, 1000 + 100 * h).unwrap();
        chain.add_block(block.clone()).unwrap();
        hashes.push(block.hash);
    }
    (chain, hashes)
}

#[test]
fn delete_blocks_keeps_a_matching_block() {
    let (mut chain, hashes) = chain_of(2);
    let removed = chain.delete_blocks(&hashes[1], 1).unwrap();
    assert_eq!(removed, vec![hashes[2].clone()]);
    assert_eq!(chain.get_tip(), hashes[1]);
    assert_eq!(chain.all_blocks().len(), 2);
    assert_eq!(chain.get_best_height(), 1);
}

#[test]
fn delete_blocks_removes_a_differing_block() {
    let (mut chain, hashes) = chain_of(2);
    let removed = chain.delete_blocks(&[7u8; 32], 1).unwrap();
    assert_eq!(removed, vec![hashes[2].clone(), hashes[1].clone()]);
    assert_eq!(chain.get_tip(), hashes[0]);
    assert_eq!(chain.get_best_height(), 0);
}

#[test]
fn delete_blocks_cannot_remove_genesis() {
    let (mut chain, hashes) = chain_of(1);
    assert_eq!(chain.delete_blocks(&[7u8; 32], 0), Err(ChainError::UnknownBlock));
    assert_eq!(chain.get_tip(), hashes[1]);
    assert_eq!(chain.all_blocks().len(), 2);
}

#[test]
fn delete_conflict_rewinds_to_the_given_hash() {
    let (mut chain, hashes) = chain_of(2);
    let removed = chain.delete_conflict(1, hashes[0].clone()).unwrap();
    assert_eq!(removed, vec![hashes[2].clone(), hashes[1].clone()]);
    assert_eq!(chain.get_tip(), hashes[0]);
    assert_eq!(chain.delete_conflict(0, Vec::new()), Err(ChainError::UnknownBlock));
    assert_eq!(chain.get_tip(), hashes[0]);
}

#[test]
fn node_takes_blocks_once_and_checks_inputs() {
    let (chain, hashes) = chain_of(0);
    let mut utxos = UTXOSet::new();
    utxos.reindex(&chain);
    let mut node = BlockLock::new(chain, utxos);
    let block = Block::new_at(vec![coinbase(b"peer")], hashes[0].clone(), 1, 1100).unwrap();
    assert_eq!(node.add_new_block(block.clone(), false), Ok(false));
    assert_eq!(node.add_new_block(block, false), Ok(true));
    assert_eq!(node.best_height(), 1);

    let spend = TXInput::new(vec![9u8; 32], 0, vec![1], vec![2]);
    let tx = Transaction { id: vec![5u8; 32], vin: vec![spend], vout: vec![TXOutput::new(1, vec![3u8; 20])] };
    let bad = Block::new_at(vec![coinbase(b"x"), tx], node.bc.get_tip(), 2, 1200).unwrap();
    assert_eq!(node.add_new_block(bad, false), Err(ChainError::InvalidTransaction));
    assert_eq!(node.best_height(), 1);
}

#[test]
fn node_rolls_back_to_a_longer_remote_chain() {
    let (chain, hashes) = chain_of(1);
    let mut utxos = UTXOSet::new();
    utxos.reindex(&chain);
    assert_eq!(utxos.count_transactions(), 2);
    let mut node = BlockLock::new(chain, utxos);
    let remote = vec![hashes[0].clone(), vec![8u8; 32], vec![9u8; 32]];
    node.conflict(&remote);
    assert_eq!(node.bc.get_tip(), hashes[0]);
    assert_eq!(node.best_height(), 0);
    assert_eq!(node.utxos.count_transactions(), 1);

    let same = vec![hashes[0].clone(), vec![8u8; 32]];
    node.conflict(&same);
    assert_eq!(node.bc.get_tip(), hashes[0]);
}

#[test]
fn node_reports_balances_and_blocks_by_height() {
    let w = Wallet::recover_wallet(&[1u8; 32]).unwrap();
    let h = Wallet::hash_pubkey(&w.public_key);
    let chain = BlockChain::create_blockchain_at(h.clone(), b"genesis".to_vec(), 1000).unwrap();
    let mut utxos = UTXOSet::new();
    utxos.reindex(&chain);
    assert_eq!(get_balances(&utxos, &vec![h.clone(), vec![0u8; 20]]), vec![10, 0]);
    let node = BlockLock::new(chain, utxos);
    assert_eq!(node.balance(&w.get_address()), Some(10));
    assert_eq!(node.balance("0OIl"), None);
    let genesis = node.block_with_height(0).unwrap();
    assert_eq!(genesis.hash, node.bc.get_tip());
    assert!(node.block_with_height(1).is_none());
}

#[test]
fn node_mines_only_the_valid_mempool_transactions() {
    let a = Wallet::recover_wallet(&[1u8; 32]).unwrap();
    let b = Wallet::recover_wallet(&[2u8; 32]).unwrap();
    let ha = Wallet::hash_pubkey(&a.public_key);
    let hb = Wallet::hash_pubkey(&b.public_key);
    let chain = BlockChain::create_blockchain_at(ha.clone(), b"genesis".to_vec(), 1000).unwrap();
    let mut utxos = UTXOSet::new();
    utxos.reindex(&chain);
    let good = Transaction::new_utxo_transaction(&a, hb, 3, &utxos, &chain, &Vec::new()).unwrap();
    let spend = TXInput::new(vec![9u8; 32], 0, vec![1], vec![2]);
    let bogus = Transaction { id: vec![5u8; 32], vin: vec![spend], vout: vec![TXOutput::new(1, vec![3u8; 20])] };
    let node = BlockLock::new(chain, utxos);
    assert_eq!(node.bc.valid_transactions(&vec![bogus.clone(), good.clone()]).0.len(), 1);
    let (block, rejected) = node.mine_new_block2(vec![6u8; 20], &vec![bogus.clone(), good.clone()]).unwrap();
    assert_eq!(rejected, vec![bogus.id.clone()]);
    assert_eq!(block.transactions.len(), 2);
    assert!(block.transactions[0].is_coinbase());
    assert_eq!(block.transactions[1].id, good.id);
    assert_eq!(block.height, 1);
    assert_eq!(node.mine_new_block2(vec![6u8; 20], &vec![bogus]).err(), Some(ChainError::InvalidTransaction));
}

#[test]
fn node_builds_transfers_to_addresses() {
    let a = Wallet::recover_wallet(&[1u8; 32]).unwrap();
    let b = Wallet::recover_wallet(&[2u8; 32]).unwrap();
    let ha = Wallet::hash_pubkey(&a.public_key);
    let chain = BlockChain::create_blockchain_at(ha, b"genesis".to_vec(), 1000).unwrap();
    let mut utxos = UTXOSet::new();
    utxos.reindex(&chain);
    let node = BlockLock::new(chain, utxos);
    let tx = node.create_new_utxo_transaction(&a, &b.get_address(), 7, &Vec::new()).unwrap();
    assert_eq!(tx.vout[0].pub_key_hash, Wallet::hash_pubkey(&b.public_key));
    assert_eq!(tx.vout[0].value, 7);
    assert_eq!(tx.vout[1].value, 3);
    assert!(node.bc.verify_transaction(&tx));
    assert_eq!(
        node.create_new_utxo_transaction(&a, "0OIl", 7, &Vec::new()).err(),
        Some(ChainError::InvalidAddress)
    );
}
