use hivechain::block::{Block, check_difficulty};
use hivechain::transaction::{Output, Transaction};

const DIFFICULTY: u128 = 0x000FFFFFFFFFFFFFFFFFFFFFFFFFFFFF;

fn coinbase(address: &str, value: u64) -> Transaction {
    Transaction {
        inputs: vec![],
        outputs: vec![Output { address: address.to_string(), value }],
    }
}

#[test]
fn mining_satisfies_difficulty() {
    let mut b = Block::new(0, 1000, vec![0u8; 32], vec![coinbase("Miner", 1)], DIFFICULTY);
    assert!(b.mine());
    // re-running the difficulty test on the returned hash must succeed
    assert!(check_difficulty(&b.hash, DIFFICULTY));
    // the cached hash is the digest of the block's current encoding
    assert_eq!(b.hash, b.hash());
}

#[test]
fn mining_leaves_content_unchanged() {
    let txs = vec![coinbase("Miner", 7)];
    let mut b = Block::new(4, 99, vec![3u8; 32], txs.clone(), DIFFICULTY);
    assert!(b.mine());
    assert_eq!(b.index, 4);
    assert_eq!(b.timestamp, 99);
    assert_eq!(b.prev_block_hash, vec![3u8; 32]);
    assert_eq!(b.difficulty, DIFFICULTY);
    assert_eq!(b.transactions.len(), 1);
    assert_eq!(b.transactions[0].outputs[0].value, 7);
}

#[test]
fn check_difficulty_threshold_exact() {
    // leading 16 bytes read as a big-endian magnitude; byte 1 set to 1
    let mut h = vec![0u8; 32];
    h[1] = 1;
    let v: u128 = 0x10000000000000000000000000000;
    assert!(!check_difficulty(&h, v));
    assert!(check_difficulty(&h, v + 1));
    // bytes beyond the leading 16 play no part
    h[20] = 0xFF;
    assert!(!check_difficulty(&h, v));
    assert!(check_difficulty(&h, v + 1));
    // a zero threshold admits nothing
    assert!(!check_difficulty(&h, 0));
    // an all-zero digest is below any positive threshold
    assert!(check_difficulty(&vec![0u8; 32], 1));
    assert!(!check_difficulty(&vec![0u8; 32], 0));
}
