use hivechain::block::Block;
use hivechain::blockchain::{BlockValidationErr, Blockchain};
use hivechain::transaction::{Output, Transaction};

const DIFFICULTY: u128 = 0x000FFFFFFFFFFFFFFFFFFFFFFFFFFFFF;

fn out(address: &str, value: u64) -> Output {
    Output { address: address.to_string(), value }
}

fn genesis_block() -> Block {
    let tx = Transaction {
        inputs: vec![],
        outputs: vec![out("Alice", 5000), out("Bob", 5000), out("Chris", 5000)],
    };
    Block::new(0, 1000, vec![0u8; 32], vec![tx], DIFFICULTY)
}

fn chain_with_genesis() -> (Blockchain, Block) {
    let mut chain = Blockchain::default();
    let mut g = genesis_block();
    assert!(g.mine());
    assert!(chain.add(g.clone()).is_ok());
    (chain, g)
}

/// A block spending Alice's 5000 into Dave 2000 + Alice 2999, fee 1 to the
/// miner's coinbase.
fn spend_block(g: &Block) -> Block {
    let cb = Transaction { inputs: vec![], outputs: vec![out("Miner", 1)] };
    let tx = Transaction {
        inputs: vec![out("Alice", 5000)],
        outputs: vec![out("Dave", 2000), out("Alice", 2999)],
    };
    let mut b = Block::new(1, 2000, g.hash.clone(), vec![cb, tx], DIFFICULTY);
    assert!(b.mine());
    b
}

#[test]
fn scenario_a_genesis_accepted() {
    let mut chain = Blockchain::default();
    assert_eq!(chain.get_fee(), 1);
    let mut g = genesis_block();
    assert!(g.mine());
    assert!(chain.add(g.clone()).is_ok());
    assert_eq!(chain.unspent_outputs.len(), 3);
    assert!(chain.unspent_outputs.contains(&out("Alice", 5000).hash()));
    assert!(chain.unspent_outputs.contains(&out("Bob", 5000).hash()));
    assert!(chain.unspent_outputs.contains(&out("Chris", 5000).hash()));
    assert_eq!(chain.get_difficulty(), DIFFICULTY);
    assert_eq!(chain.get_fee(), 1);
    assert_eq!(chain.blocks.len(), 1);
}

#[test]
fn scenario_b_spend_accepted() {
    let (mut chain, g) = chain_with_genesis();
    let b = spend_block(&g);
    assert!(chain.add(b).is_ok());
    assert_eq!(chain.unspent_outputs.len(), 5);
    assert!(!chain.unspent_outputs.contains(&out("Alice", 5000).hash()));
    assert!(chain.unspent_outputs.contains(&out("Dave", 2000).hash()));
    assert!(chain.unspent_outputs.contains(&out("Alice", 2999).hash()));
    assert!(chain.unspent_outputs.contains(&out("Miner", 1).hash()));
    assert!(chain.unspent_outputs.contains(&out("Bob", 5000).hash()));
    assert_eq!(chain.blocks.len(), 2);
}

#[test]
fn scenario_c_resubmission_rejected() {
    let (mut chain, g) = chain_with_genesis();
    let b = spend_block(&g);
    let resubmitted = b.clone();
    assert!(chain.add(b).is_ok());
    // the very same block fails the index check first: the chain has moved on
    match chain.add(resubmitted.clone()) {
        Err(BlockValidationErr::MismatchedIndex) => {},
        other => panic!("expected MismatchedIndex, got {:?}", other.err()),
    }
    // brought up to date, it still fails: its inputs are no longer unspent
    let mut again = resubmitted;
    again.index = 2;
    again.timestamp = 3000;
    assert!(again.mine());
    match chain.add(again) {
        Err(BlockValidationErr::InvalidInput) => {},
        other => panic!("expected InvalidInput, got {:?}", other.err()),
    }
    assert_eq!(chain.blocks.len(), 2);
    assert_eq!(chain.unspent_outputs.len(), 5);
}

#[test]
fn rejection_leaves_ledger_unchanged() {
    let (mut chain, _g) = chain_with_genesis();
    let cb = Transaction { inputs: vec![], outputs: vec![out("Miner", 1)] };
    // wrong index: rejected before anything else
    let bad = Block::new(7, 2000, vec![0u8; 32], vec![cb], DIFFICULTY);
    match chain.add(bad) {
        Err(BlockValidationErr::MismatchedIndex) => {},
        other => panic!("expected MismatchedIndex, got {:?}", other.err()),
    }
    assert_eq!(chain.blocks.len(), 1);
    assert_eq!(chain.get_difficulty(), DIFFICULTY);
    assert_eq!(chain.get_fee(), 1);
    assert_eq!(chain.unspent_outputs.len(), 3);
    assert!(chain.unspent_outputs.contains(&out("Alice", 5000).hash()));
    assert!(chain.unspent_outputs.contains(&out("Bob", 5000).hash()));
    assert!(chain.unspent_outputs.contains(&out("Chris", 5000).hash()));
}

#[test]
fn double_spend_in_one_block_rejected() {
    let (mut chain, g) = chain_with_genesis();
    let cb = Transaction { inputs: vec![], outputs: vec![out("Miner", 3)] };
    let tx1 = Transaction {
        inputs: vec![out("Alice", 5000)],
        outputs: vec![out("Dave", 4999)],
    };
    let tx2 = Transaction {
        inputs: vec![out("Alice", 5000)],
        outputs: vec![out("Erin", 4998)],
    };
    let mut b = Block::new(1, 2000, g.hash.clone(), vec![cb, tx1, tx2], DIFFICULTY);
    assert!(b.mine());
    match chain.add(b) {
        Err(BlockValidationErr::InvalidInput) => {},
        other => panic!("expected InvalidInput, got {:?}", other.err()),
    }
    assert_eq!(chain.blocks.len(), 1);
    assert_eq!(chain.unspent_outputs.len(), 3);
}

#[test]
fn unknown_input_rejected() {
    let (mut chain, g) = chain_with_genesis();
    let cb = Transaction { inputs: vec![], outputs: vec![out("Miner", 1)] };
    let tx = Transaction {
        inputs: vec![out("Nobody", 123)],
        outputs: vec![out("Dave", 122)],
    };
    let mut b = Block::new(1, 2000, g.hash.clone(), vec![cb, tx], DIFFICULTY);
    assert!(b.mine());
    match chain.add(b) {
        Err(BlockValidationErr::InvalidInput) => {},
        other => panic!("expected InvalidInput, got {:?}", other.err()),
    }
}

#[test]
fn value_creation_rejected() {
    let (mut chain, g) = chain_with_genesis();
    let cb = Transaction { inputs: vec![], outputs: vec![out("Miner", 1)] };
    let tx = Transaction {
        inputs: vec![out("Alice", 5000)],
        outputs: vec![out("Alice", 5001)],
    };
    let mut b = Block::new(1, 2000, g.hash.clone(), vec![cb, tx], DIFFICULTY);
    assert!(b.mine());
    match chain.add(b) {
        Err(BlockValidationErr::InsufficientInputValue) => {},
        other => panic!("expected InsufficientInputValue, got {:?}", other.err()),
    }
    assert_eq!(chain.unspent_outputs.len(), 3);
}

#[test]
fn achronological_timestamp_rejected() {
    let (mut chain, g) = chain_with_genesis();
    let cb = Transaction { inputs: vec![], outputs: vec![out("Miner", 1)] };
    // equal to the previous block's timestamp: too early
    let mut b = Block::new(1, 1000, g.hash.clone(), vec![cb.clone()], DIFFICULTY);
    assert!(b.mine());
    match chain.add(b) {
        Err(BlockValidationErr::AchronologicalTimestamp) => {},
        other => panic!("expected AchronologicalTimestamp, got {:?}", other.err()),
    }
    // strictly earlier
    let mut b2 = Block::new(1, 999, g.hash.clone(), vec![cb], DIFFICULTY);
    assert!(b2.mine());
    match chain.add(b2) {
        Err(BlockValidationErr::AchronologicalTimestamp) => {},
        other => panic!("expected AchronologicalTimestamp, got {:?}", other.err()),
    }
}

#[test]
fn genesis_nonzero_prev_hash_rejected() {
    let mut chain = Blockchain::default();
    let cb = Transaction { inputs: vec![], outputs: vec![out("Miner", 1)] };
    let mut b = Block::new(0, 1000, vec![1u8; 32], vec![cb], DIFFICULTY);
    assert!(b.mine());
    match chain.add(b) {
        Err(BlockValidationErr::InvalidGenesisBlockFormat) => {},
        other => panic!("expected InvalidGenesisBlockFormat, got {:?}", other.err()),
    }
    assert_eq!(chain.blocks.len(), 0);
    assert_eq!(chain.unspent_outputs.len(), 0);
}

#[test]
fn mismatched_index_rejected() {
    let mut chain = Blockchain::default();
    let cb = Transaction { inputs: vec![], outputs: vec![out("Miner", 1)] };
    let b = Block::new(1, 1000, vec![0u8; 32], vec![cb], DIFFICULTY);
    match chain.add(b) {
        Err(BlockValidationErr::MismatchedIndex) => {},
        other => panic!("expected MismatchedIndex, got {:?}", other.err()),
    }
}

#[test]
fn failed_work_rejected() {
    let mut chain = Blockchain::default();
    let cb = Transaction { inputs: vec![], outputs: vec![out("Miner", 1)] };
    // a zero threshold admits no digest at all
    let b = Block::new(0, 1000, vec![0u8; 32], vec![cb], 0);
    match chain.add(b) {
        Err(BlockValidationErr::InvalidHash) => {},
        other => panic!("expected InvalidHash, got {:?}", other.err()),
    }
}

#[test]
fn empty_transaction_list_rejected() {
    let mut chain = Blockchain::default();
    let mut b = Block::new(0, 1000, vec![0u8; 32], vec![], DIFFICULTY);
    assert!(b.mine());
    match chain.add(b) {
        Err(BlockValidationErr::InvalidCoinbaseTransaction) => {},
        other => panic!("expected InvalidCoinbaseTransaction, got {:?}", other.err()),
    }
}

#[test]
fn coinbase_with_inputs_rejected() {
    let mut chain = Blockchain::default();
    let not_coinbase = Transaction {
        inputs: vec![out("Alice", 1)],
        outputs: vec![out("Bob", 1)],
    };
    let mut b = Block::new(0, 1000, vec![0u8; 32], vec![not_coinbase], DIFFICULTY);
    assert!(b.mine());
    match chain.add(b) {
        Err(BlockValidationErr::InvalidCoinbaseTransaction) => {},
        other => panic!("expected InvalidCoinbaseTransaction, got {:?}", other.err()),
    }
}

#[test]
fn coinbase_below_fee_rejected() {
    let (mut chain, g) = chain_with_genesis();
    // the regular transaction leaves a fee of 10; the coinbase claims only 5
    let cb = Transaction { inputs: vec![], outputs: vec![out("Miner", 5)] };
    let tx = Transaction {
        inputs: vec![out("Alice", 5000)],
        outputs: vec![out("Dave", 4990)],
    };
    let mut b = Block::new(1, 2000, g.hash.clone(), vec![cb, tx], DIFFICULTY);
    assert!(b.mine());
    match chain.add(b) {
        Err(BlockValidationErr::InvalidCoinbaseTransaction) => {},
        other => panic!("expected InvalidCoinbaseTransaction, got {:?}", other.err()),
    }
    assert_eq!(chain.unspent_outputs.len(), 3);
}

#[test]
fn last_block_tracks_chain() {
    let mut chain = Blockchain::default();
    assert!(chain.get_last_block().is_none());
    let mut g = genesis_block();
    assert!(g.mine());
    let expected_hash = g.hash.clone();
    assert!(chain.add(g).is_ok());
    let last = chain.get_last_block().expect("chain has a block");
    assert_eq!(last.index, 0);
    assert_eq!(last.hash, expected_hash);
}
