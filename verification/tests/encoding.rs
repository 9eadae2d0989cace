use hivechain::block::Block;
use hivechain::encode::{u128_bytes, u32_bytes, u64_bytes};
use hivechain::transaction::{Output, Transaction};
use hivechain::utxo::UtxoSet;

fn out(address: &str, value: u64) -> Output {
    Output { address: address.to_string(), value }
}

#[test]
fn u32_bytes_exact() {
    assert_eq!(u32_bytes(0x01020304), vec![1u8, 2, 3, 4]);
    assert_eq!(u32_bytes(0), vec![0u8; 4]);
    assert_eq!(u32_bytes(u32::MAX), vec![0xffu8; 4]);
}

#[test]
fn u64_bytes_exact() {
    assert_eq!(u64_bytes(0x0102030405060708), vec![1u8, 2, 3, 4, 5, 6, 7, 8]);
    assert_eq!(u64_bytes(5000), vec![0u8, 0, 0, 0, 0, 0, 0x13, 0x88]);
    assert_eq!(u64_bytes(u64::MAX), vec![0xffu8; 8]);
}

#[test]
fn u128_bytes_exact() {
    let mut one = vec![0u8; 16];
    one[15] = 1;
    assert_eq!(u128_bytes(1), one);
    assert_eq!(
        u128_bytes(0x000FFFFFFFFFFFFFFFFFFFFFFFFFFFFF),
        vec![0x00u8, 0x0F, 0xFF, 0xFF, 0xFF, 0xFF, 0xFF, 0xFF, 0xFF, 0xFF, 0xFF, 0xFF, 0xFF, 0xFF, 0xFF, 0xFF],
    );
}

#[test]
fn output_bytes_layout() {
    let o = out("Alice", 5000);
    let mut expected = b"Alice".to_vec();
    expected.extend_from_slice(&u64_bytes(5000));
    assert_eq!(o.bytes(), expected);
}

#[test]
fn transaction_bytes_layout() {
    let t = Transaction {
        inputs: vec![out("A", 1), out("B", 2)],
        outputs: vec![out("C", 3)],
    };
    let mut expected = out("A", 1).bytes();
    expected.extend_from_slice(&out("B", 2).bytes());
    expected.extend_from_slice(&out("C", 3).bytes());
    assert_eq!(t.bytes(), expected);
}

#[test]
fn block_bytes_layout() {
    let tx = Transaction { inputs: vec![], outputs: vec![out("A", 7)] };
    let prev = vec![9u8; 32];
    let mut b = Block::new(3, 77, prev.clone(), vec![tx.clone()], 123);
    b.nonce = 42;
    let mut expected = u32_bytes(3);
    expected.extend_from_slice(&u128_bytes(77));
    expected.extend_from_slice(&prev);
    expected.extend_from_slice(&u64_bytes(42));
    expected.extend_from_slice(&tx.bytes());
    expected.extend_from_slice(&u128_bytes(123));
    assert_eq!(b.bytes(), expected);
    // the cached hash field is not part of the encoding
    b.hash = vec![0xAAu8; 32];
    assert_eq!(b.bytes(), expected);
}

#[test]
fn digest_known_answers() {
    // SHA-256 of the canonical bytes of ("", 0): eight zero bytes
    let h = out("", 0).hash();
    assert_eq!(
        hex::encode(&h),
        "af5570f5a1810b7af78caf4bc70a660f0df51e42baf91d4de5b2328de0e83dfc",
    );
    // SHA-256 of "Alice" ++ be64(5000)
    let h2 = out("Alice", 5000).hash();
    assert_eq!(
        hex::encode(&h2),
        "aabd88b33b148e1bf75c814c0a19daa1bb77074a2543b7303650c251b9d14e4b",
    );
}

#[test]
fn transaction_sums() {
    let t = Transaction {
        inputs: vec![out("A", 5000), out("B", 37)],
        outputs: vec![out("C", 4000), out("D", 1000)],
    };
    assert_eq!(t.input_value(), 5037);
    assert_eq!(t.output_value(), 5000);
    assert!(!t.is_coinbase());
    let cb = Transaction { inputs: vec![], outputs: vec![out("M", 1)] };
    assert!(cb.is_coinbase());
    assert_eq!(cb.input_value(), 0);
}

#[test]
fn transaction_hash_sets() {
    let t = Transaction {
        inputs: vec![out("A", 1)],
        outputs: vec![out("B", 2), out("C", 3), out("B", 2)],
    };
    let ins = t.input_hashes();
    assert_eq!(ins.len(), 1);
    assert!(ins.contains(&out("A", 1).hash()));
    // identical outputs collide: they are the same entry by content hash
    let outs = t.output_hashes();
    assert_eq!(outs.len(), 2);
    assert!(outs.contains(&out("B", 2).hash()));
    assert!(outs.contains(&out("C", 3).hash()));
    assert!(!outs.contains(&out("A", 1).hash()));
}

#[test]
fn utxo_set_operations() {
    let mut s = UtxoSet::new();
    assert_eq!(s.len(), 0);
    let a = out("A", 1).hash();
    let b = out("B", 2).hash();
    s.insert(a.clone());
    s.insert(b.clone());
    s.insert(a.clone());
    assert_eq!(s.len(), 2);
    assert!(s.contains(&a));
    assert!(s.contains(&b));
    s.remove(&a);
    assert_eq!(s.len(), 1);
    assert!(!s.contains(&a));
    assert!(s.contains(&b));
    s.remove(&a);
    assert_eq!(s.len(), 1);
}
