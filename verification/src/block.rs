//! Blocks and the proof-of-work search.
//!
//! A block is a timestamped, indexed container of transactions plus a nonce.
//! Mining varies the nonce until the digest of the block's canonical
//! encoding, read as a 128-bit magnitude, falls strictly below the block's
//! difficulty threshold.

use vstd::prelude::*;

use crate::digest::{digest, digest_of};
use crate::encode::{spec_u128_be, spec_u32_be, spec_u64_be, u128_bytes, u32_bytes, u64_bytes};
use crate::transaction::{Transaction, transaction_bytes};
use crate::utxo::copy_bytes;

verus! {

/// A block of the chain. `index` is its position (genesis = 0); `hash`
/// caches the digest found by mining and is not itself part of the canonical
/// encoding.
#[derive(Clone)]
pub struct Block {
    pub index: u32,
    pub timestamp: u128,
    pub prev_block_hash: crate::Hash,
    pub hash: crate::Hash,
    pub nonce: u64,
    pub transactions: Vec<Transaction>,
    pub difficulty: u128,
}

/// The concatenated canonical bytes of a sequence of transactions, in order.
pub open spec fn transactions_bytes(s: Seq<Transaction>) -> Seq<u8>
    decreases s.len(),
{
    if s.len() == 0 {
        Seq::empty()
    } else {
        transactions_bytes(s.drop_last()) + transaction_bytes(s.last())
    }
}

/// The canonical bytes of a block: index, timestamp, previous hash, nonce,
/// transactions and difficulty, each in its fixed-width big-endian form. The
/// cached `hash` field is deliberately absent.
pub open spec fn block_bytes(b: Block) -> Seq<u8> {
    spec_u32_be(b.index) + spec_u128_be(b.timestamp) + b.prev_block_hash@ + spec_u64_be(b.nonce)
        + transactions_bytes(b.transactions@) + spec_u128_be(b.difficulty)
}

/// The same block with another nonce.
pub open spec fn with_nonce(b: Block, n: u64) -> Block {
    Block { nonce: n, ..b }
}

/// The all-zero 32-byte value, the required previous hash of a genesis
/// block.
pub open spec fn zero_hash_seq() -> Seq<u8> {
    Seq::new(32, |i: int| 0u8)
}

/// A fresh all-zero 32-byte hash.
pub fn zero_hash() -> (r: Vec<u8>)
    ensures
        r@ == zero_hash_seq(),
{
    let mut r: Vec<u8> = Vec::new();
    let mut i: usize = 0;
    while i < 32
        invariant
            i <= 32,
            r@.len() == i,
            forall|j: int| 0 <= j < i ==> r@[j] == 0u8,
        decreases 32 - i,
    {
        r.push(0u8);
        i += 1;
    }
    proof {
        assert(r@ =~= zero_hash_seq());
    }
    r
}

/// A digest's leading bytes read as a big-endian magnitude: the last byte is
/// least significant.
pub open spec fn be_value(s: Seq<u8>) -> int
    decreases s.len(),
{
    if s.len() == 0 {
        0
    } else {
        be_value(s.drop_last()) * 256 + s.last()
    }
}

/// Whether a digest satisfies a difficulty threshold: its leading 16 bytes,
/// as a big-endian 128-bit magnitude, fall strictly below `difficulty`. A
/// smaller difficulty is a harder target.
pub open spec fn spec_check_difficulty(hash: Seq<u8>, difficulty: u128) -> bool {
    difficulty > be_value(hash.take(16))
}

/// 256 raised to `n`.
spec fn pow256(n: nat) -> int
    decreases n,
{
    if n == 0 {
        1
    } else {
        256 * pow256((n - 1) as nat)
    }
}

proof fn lemma_pow256_pos(n: nat)
    ensures
        pow256(n) >= 1,
    decreases n,
{
    if n > 0 {
        lemma_pow256_pos((n - 1) as nat);
    }
}

proof fn lemma_pow256_mono(a: nat, b: nat)
    requires
        a <= b,
    ensures
        pow256(a) <= pow256(b),
    decreases b,
{
    if a < b {
        lemma_pow256_mono(a, (b - 1) as nat);
        lemma_pow256_pos((b - 1) as nat);
    }
}

proof fn lemma_pow256_16()
    ensures
        pow256(15) == 0x1000000000000000000000000000000,
        pow256(16) == 0x100000000000000000000000000000000,
{
    assert(pow256(0) == 1);
    assert(pow256(1) == 0x100);
    assert(pow256(2) == 0x10000);
    assert(pow256(3) == 0x1000000);
    assert(pow256(4) == 0x100000000);
    assert(pow256(5) == 0x10000000000);
    assert(pow256(6) == 0x1000000000000);
    assert(pow256(7) == 0x100000000000000);
    assert(pow256(8) == 0x10000000000000000);
    assert(pow256(9) == 0x1000000000000000000);
    assert(pow256(10) == 0x100000000000000000000);
    assert(pow256(11) == 0x10000000000000000000000);
    assert(pow256(12) == 0x1000000000000000000000000);
    assert(pow256(13) == 0x100000000000000000000000000);
    assert(pow256(14) == 0x10000000000000000000000000000);
    assert(pow256(15) == 0x1000000000000000000000000000000);
    assert(pow256(16) == 0x100000000000000000000000000000000);
}

/// A big-endian magnitude is bounded by 256 to the number of its bytes.
proof fn lemma_be_value_bound(s: Seq<u8>)
    ensures
        0 <= be_value(s) < pow256(s.len()),
    decreases s.len(),
{
    if s.len() > 0 {
        lemma_be_value_bound(s.drop_last());
    }
}

/// The leading 16 bytes of a digest as a big-endian 128-bit magnitude.
pub fn difficulty_bytes_as_u128(v: &Vec<u8>) -> (r: u128)
    requires
        v@.len() >= 16,
    ensures
        r as int == be_value(v@.take(16)),
{
    let mut r: u128 = 0;
    let mut i: usize = 0;
    while i < 16
        invariant
            i <= 16,
            v@.len() >= 16,
            r as int == be_value(v@.take(i as int)),
        decreases 16 - i,
    {
        proof {
            lemma_be_value_bound(v@.take(i as int));
            lemma_pow256_mono(i as nat, 15);
            lemma_pow256_16();
            assert(v@.take(i + 1).drop_last() =~= v@.take(i as int));
            assert(v@.take(i + 1).last() == v@[i as int]);
        }
        r = r * 256 + (v[i] as u128);
        i += 1;
    }
    r
}

/// Whether `hash` satisfies `difficulty`: acceptance requires the digest
/// magnitude strictly below the threshold.
pub fn check_difficulty(hash: &crate::Hash, difficulty: u128) -> (r: bool)
    requires
        hash@.len() >= 16,
    ensures
        r == spec_check_difficulty(hash@, difficulty),
{
    difficulty > difficulty_bytes_as_u128(hash)
}

impl Block {
    /// A fresh block: nonce zero, cached hash all zeroes, to be filled in by
    /// mining.
    pub fn new(
        index: u32,
        timestamp: u128,
        prev_block_hash: crate::Hash,
        transactions: Vec<Transaction>,
        difficulty: u128,
    ) -> (r: Block)
        ensures
            r.index == index,
            r.timestamp == timestamp,
            r.prev_block_hash == prev_block_hash,
            r.hash@ == zero_hash_seq(),
            r.nonce == 0,
            r.transactions == transactions,
            r.difficulty == difficulty,
    {
        Block {
            index,
            timestamp,
            prev_block_hash,
            hash: zero_hash(),
            nonce: 0,
            transactions,
            difficulty,
        }
    }

    /// The canonical byte encoding, the input to the digest.
    pub fn bytes(&self) -> (r: Vec<u8>)
        ensures
            r@ == block_bytes(*self),
    {
        let ghost head = spec_u32_be(self.index) + spec_u128_be(self.timestamp)
            + self.prev_block_hash@ + spec_u64_be(self.nonce);
        let mut r = u32_bytes(self.index);
        let mut t = u128_bytes(self.timestamp);
        r.append(&mut t);
        let mut p = copy_bytes(&self.prev_block_hash);
        r.append(&mut p);
        let mut n = u64_bytes(self.nonce);
        r.append(&mut n);
        let mut i: usize = 0;
        while i < self.transactions.len()
            invariant
                i <= self.transactions@.len(),
                r@ == head + transactions_bytes(self.transactions@.take(i as int)),
                head == spec_u32_be(self.index) + spec_u128_be(self.timestamp)
                    + self.prev_block_hash@ + spec_u64_be(self.nonce),
            decreases self.transactions@.len() - i,
        {
            proof {
                assert(self.transactions@.take(i + 1).drop_last()
                    =~= self.transactions@.take(i as int));
                assert(self.transactions@.take(i + 1).last() == self.transactions@[i as int]);
            }
            let mut tb = self.transactions[i].bytes();
            r.append(&mut tb);
            proof {
                assert(r@ =~= head + transactions_bytes(self.transactions@.take(i + 1)));
            }
            i += 1;
        }
        proof {
            assert(self.transactions@.take(self.transactions@.len() as int)
                =~= self.transactions@);
        }
        let mut d = u128_bytes(self.difficulty);
        r.append(&mut d);
        proof {
            assert(r@ =~= block_bytes(*self));
        }
        r
    }

    /// The 32-byte digest of the block's canonical encoding.
    pub fn hash(&self) -> (r: crate::Hash)
        ensures
            r@ == digest_of(block_bytes(*self)),
            r@.len() == 32,
    {
        let b = self.bytes();
        digest(&b)
    }

    /// The proof-of-work search: tries every nonce from 0 upward; the first
    /// satisfying digest is cached in `hash` and `true` comes back. `false`
    /// means the whole 64-bit nonce space was exhausted without any nonce
    /// satisfying the difficulty, and the cached hash is left stale.
    pub fn mine(&mut self) -> (found: bool)
        ensures
            final(self).index == old(self).index,
            final(self).timestamp == old(self).timestamp,
            final(self).prev_block_hash == old(self).prev_block_hash,
            final(self).transactions == old(self).transactions,
            final(self).difficulty == old(self).difficulty,
            found ==> {
                &&& final(self).hash@ == digest_of(block_bytes(*final(self)))
                &&& final(self).hash@.len() == 32
                &&& spec_check_difficulty(final(self).hash@, final(self).difficulty)
                &&& forall|n: u64|
                    n < final(self).nonce ==> !spec_check_difficulty(
                        digest_of(block_bytes(with_nonce(*old(self), n))),
                        old(self).difficulty,
                    )
            },
            !found ==> {
                &&& final(self).hash == old(self).hash
                &&& forall|n: u64|
                    !spec_check_difficulty(
                        digest_of(block_bytes(with_nonce(*old(self), n))),
                        old(self).difficulty,
                    )
            },
    {
        let mut nonce: u64 = 0;
        while nonce < u64::MAX
            invariant
                self.index == old(self).index,
                self.timestamp == old(self).timestamp,
                self.prev_block_hash == old(self).prev_block_hash,
                self.transactions == old(self).transactions,
                self.difficulty == old(self).difficulty,
                self.hash == old(self).hash,
                forall|n: u64|
                    n < nonce ==> !spec_check_difficulty(
                        digest_of(block_bytes(with_nonce(*old(self), n))),
                        old(self).difficulty,
                    ),
            decreases u64::MAX - nonce,
        {
            self.nonce = nonce;
            proof {
                assert(*self == with_nonce(*old(self), nonce));
            }
            let h = self.hash();
            if check_difficulty(&h, self.difficulty) {
                self.hash = h;
                return true;
            }
            nonce += 1;
        }
        self.nonce = u64::MAX;
        proof {
            assert(*self == with_nonce(*old(self), u64::MAX));
        }
        let h = self.hash();
        if check_difficulty(&h, self.difficulty) {
            self.hash = h;
            return true;
        }
        false
    }
}

} // verus!
