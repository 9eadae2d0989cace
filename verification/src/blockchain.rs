//! The ledger: the append-only sequence of accepted blocks and the
//! authoritative unspent-output set, with the block-acceptance protocol.
//!
//! `spec_verify` is the mathematical statement of the protocol: an ordered
//! sequence of checks, short-circuiting on the first failure, yielding
//! either the error of the first failed check or the successor
//! unspent-output set. `verify_block_addition` computes exactly that, and
//! `add` installs the result.

use vstd::prelude::*;

use crate::block::{
    Block, block_bytes, check_difficulty, spec_check_difficulty, zero_hash_seq,
};
use crate::digest::digest_of;
use crate::transaction::{
    Transaction, input_hash_set, lemma_hashes_of_contains, lemma_sum_values_bound,
    output_hash, output_hash_set, sum_values, sum_values_u128,
};
use crate::utxo::UtxoSet;

verus! {

/// Why a candidate block was refused. Every failure leaves the ledger
/// unchanged; the block must be rebuilt, not resubmitted.
#[derive(Clone, Copy, Debug, PartialEq, Eq, Structural)]
pub enum BlockValidationErr {
    /// The block's index is not the current chain length.
    MismatchedIndex,
    /// The digest of the block's encoding does not satisfy its difficulty.
    InvalidHash,
    /// The timestamp does not exceed the previous block's.
    AchronologicalTimestamp,
    /// Reserved: no check raises it at present.
    MismatchedPreviousHash,
    /// A first block whose previous-hash field is not all zeroes.
    InvalidGenesisBlockFormat,
    /// An input that is unknown, already spent, or spent twice in one block.
    InvalidInput,
    /// A transaction that creates more value than it consumes.
    InsufficientInputValue,
    /// A missing or malformed coinbase, or one that does not cover the fees.
    InvalidCoinbaseTransaction,
}

/// The scan over the regular (non-coinbase) transactions of a block, in
/// order: each transaction must spend only hashes that are unspent in the
/// ledger and untouched earlier in the same block, and must not create
/// value. The accumulators gather what the block spends and creates and the
/// total fee it collects.
pub open spec fn spec_process(
    txs: Seq<Transaction>,
    utxo: Set<Seq<u8>>,
    spent: Set<Seq<u8>>,
    created: Set<Seq<u8>>,
    fee: int,
) -> Result<(Set<Seq<u8>>, Set<Seq<u8>>, int), BlockValidationErr>
    decreases txs.len(),
{
    if txs.len() == 0 {
        Ok((spent, created, fee))
    } else {
        let t = txs[0];
        if !input_hash_set(t).subset_of(utxo) || !input_hash_set(t).disjoint(spent) {
            Err(BlockValidationErr::InvalidInput)
        } else if sum_values(t.outputs@) > sum_values(t.inputs@) {
            Err(BlockValidationErr::InsufficientInputValue)
        } else {
            spec_process(
                txs.drop_first(),
                utxo,
                spent.union(input_hash_set(t)),
                created.union(output_hash_set(t)),
                fee + sum_values(t.inputs@) - sum_values(t.outputs@),
            )
        }
    }
}

/// The acceptance protocol for a candidate block against a chain and its
/// unspent-output set: index continuity, proof of work, chronology, genesis
/// shape, then the transaction scan, in that precedence.
pub open spec fn spec_verify(blocks: Seq<Block>, utxo: Set<Seq<u8>>, b: Block) -> Result<
    Set<Seq<u8>>,
    BlockValidationErr,
> {
    if b.index as int != blocks.len() as int {
        Err(BlockValidationErr::MismatchedIndex)
    } else if !spec_check_difficulty(digest_of(block_bytes(b)), b.difficulty) {
        Err(BlockValidationErr::InvalidHash)
    } else if blocks.len() != 0 && b.timestamp <= blocks.last().timestamp {
        Err(BlockValidationErr::AchronologicalTimestamp)
    } else if blocks.len() == 0 && b.prev_block_hash@ != zero_hash_seq() {
        Err(BlockValidationErr::InvalidGenesisBlockFormat)
    } else if b.transactions@.len() == 0 {
        Err(BlockValidationErr::InvalidCoinbaseTransaction)
    } else if b.transactions@[0].inputs@.len() != 0 {
        Err(BlockValidationErr::InvalidCoinbaseTransaction)
    } else {
        match spec_process(
            b.transactions@.drop_first(),
            utxo,
            Set::empty(),
            Set::empty(),
            0,
        ) {
            Err(e) => Err(e),
            Ok((spent, created, fee)) => {
                let coinbase = b.transactions@[0];
                if sum_values(coinbase.outputs@) < fee {
                    Err(BlockValidationErr::InvalidCoinbaseTransaction)
                } else {
                    Ok(utxo.difference(spent).union(created).union(output_hash_set(coinbase)))
                }
            },
        }
    }
}

/// Everything a sequence of transactions spends.
pub open spec fn txs_spent(txs: Seq<Transaction>) -> Set<Seq<u8>>
    decreases txs.len(),
{
    if txs.len() == 0 {
        Set::empty()
    } else {
        input_hash_set(txs[0]).union(txs_spent(txs.drop_first()))
    }
}

/// Everything a sequence of transactions creates.
pub open spec fn txs_created(txs: Seq<Transaction>) -> Set<Seq<u8>>
    decreases txs.len(),
{
    if txs.len() == 0 {
        Set::empty()
    } else {
        output_hash_set(txs[0]).union(txs_created(txs.drop_first()))
    }
}

/// What a block spends: the inputs of its regular transactions.
pub open spec fn block_spent_set(b: Block) -> Set<Seq<u8>> {
    if b.transactions@.len() == 0 {
        Set::empty()
    } else {
        txs_spent(b.transactions@.drop_first())
    }
}

/// What a block creates: the outputs of all its transactions, coinbase
/// included.
pub open spec fn block_created_set(b: Block) -> Set<Seq<u8>> {
    txs_created(b.transactions@)
}

/// One block's effect on the unspent-output set: what it spends leaves, what
/// it creates enters.
pub open spec fn apply_block(utxo: Set<Seq<u8>>, b: Block) -> Set<Seq<u8>> {
    utxo.difference(block_spent_set(b)).union(block_created_set(b))
}

/// The unspent-output set obtained by replaying a chain from genesis over an
/// initially empty set.
pub open spec fn spec_replay(blocks: Seq<Block>) -> Set<Seq<u8>>
    decreases blocks.len(),
{
    if blocks.len() == 0 {
        Set::<Seq<u8>>::empty()
    } else {
        apply_block(spec_replay(blocks.drop_last()), blocks.last())
    }
}

/// When the transaction scan succeeds, its accumulators have grown by
/// exactly what the transactions spend, create and collect.
pub proof fn lemma_process_accumulators(
    txs: Seq<Transaction>,
    utxo: Set<Seq<u8>>,
    spent: Set<Seq<u8>>,
    created: Set<Seq<u8>>,
    fee: int,
)
    requires
        spec_process(txs, utxo, spent, created, fee) is Ok,
    ensures
        ({
            let ok = spec_process(txs, utxo, spent, created, fee)->Ok_0;
            &&& ok.0 == spent.union(txs_spent(txs))
            &&& ok.1 == created.union(txs_created(txs))
        }),
    decreases txs.len(),
{
    if txs.len() == 0 {
        assert(spent.union(txs_spent(txs)) =~= spent);
        assert(created.union(txs_created(txs)) =~= created);
    } else {
        let t = txs[0];
        lemma_process_accumulators(
            txs.drop_first(),
            utxo,
            spent.union(input_hash_set(t)),
            created.union(output_hash_set(t)),
            fee + sum_values(t.inputs@) - sum_values(t.outputs@),
        );
        assert(spent.union(input_hash_set(t)).union(txs_spent(txs.drop_first()))
            =~= spent.union(txs_spent(txs)));
        assert(created.union(output_hash_set(t)).union(txs_created(txs.drop_first()))
            =~= created.union(txs_created(txs)));
    }
}

/// An accepted block's successor set is its effect applied to the current
/// set.
pub proof fn lemma_verify_ok_applies(blocks: Seq<Block>, utxo: Set<Seq<u8>>, b: Block)
    requires
        spec_verify(blocks, utxo, b) is Ok,
    ensures
        spec_verify(blocks, utxo, b)->Ok_0 == apply_block(utxo, b),
{
    let regular = b.transactions@.drop_first();
    lemma_process_accumulators(regular, utxo, Set::empty(), Set::empty(), 0);
    let ok = spec_process(regular, utxo, Set::empty(), Set::empty(), 0)->Ok_0;
    assert(ok.0 =~= txs_spent(regular));
    assert(ok.1 =~= txs_created(regular));
    let coinbase = b.transactions@[0];
    assert(block_created_set(b) == output_hash_set(coinbase).union(txs_created(regular)));
    assert(utxo.difference(ok.0).union(ok.1).union(output_hash_set(coinbase))
        =~= apply_block(utxo, b));
}

/// The ledger: the accepted chain, the difficulty and fee offered to the
/// next miner, and the authoritative unspent-output set.
pub struct Blockchain {
    pub blocks: Vec<Block>,
    pub next_difficulty: u128,
    pub next_fee: u128,
    pub unspent_outputs: UtxoSet,
}

impl Blockchain {
    /// Ledger consistency: the fee is the constant 1; the difficulty is
    /// pinned to the genesis block's; the unspent-output set is exactly
    /// what replaying the chain from genesis yields; and blocks stand at
    /// their own index with strictly increasing timestamps.
    pub open spec fn wf(&self) -> bool {
        &&& self.unspent_outputs.wf()
        &&& self.unspent_outputs@ == spec_replay(self.blocks@)
        &&& self.next_fee == 1
        &&& self.next_difficulty == (if self.blocks@.len() == 0 {
            0u128
        } else {
            self.blocks@[0].difficulty
        })
        &&& forall|i: int|
            0 <= i < self.blocks@.len() ==> (#[trigger] self.blocks@[i]).index as int == i
        &&& forall|i: int|
            0 < i < self.blocks@.len() ==> (#[trigger] self.blocks@[i]).timestamp
                > self.blocks@[i - 1].timestamp
    }

    /// The most recently accepted block, if any.
    pub fn get_last_block(&self) -> (r: Option<&Block>)
        ensures
            match r {
                Some(b) => self.blocks@.len() > 0 && *b == self.blocks@.last(),
                None => self.blocks@.len() == 0,
            },
    {
        if self.blocks.len() == 0 {
            None
        } else {
            Some(&self.blocks[self.blocks.len() - 1])
        }
    }

    /// The difficulty a miner must satisfy for the next block: the genesis
    /// block's difficulty, once a genesis block exists.
    pub fn get_difficulty(&self) -> (r: u128)
        ensures
            r == self.next_difficulty,
            self.wf() && self.blocks@.len() > 0 ==> r == self.blocks@[0].difficulty,
    {
        self.next_difficulty
    }

    /// The fee collected per transaction: a fixed constant in this system.
    pub fn get_fee(&self) -> (r: u128)
        ensures
            r == self.next_fee,
            self.wf() ==> r == 1,
    {
        self.next_fee
    }

    /// Checks a candidate block against the current ledger state, mutating
    /// nothing. On success the successor unspent-output set comes back; on
    /// failure, the error of the first failed check of the protocol.
    #[verifier::loop_isolation(false)]
    pub fn verify_block_addition(&self, new_block: &Block) -> (r: Result<
        UtxoSet,
        BlockValidationErr,
    >)
        requires
            self.unspent_outputs.wf(),
        ensures
            match r {
                Ok(s) => {
                    &&& s.wf()
                    &&& spec_verify(self.blocks@, self.unspent_outputs@, *new_block)
                        == Ok::<Set<Seq<u8>>, BlockValidationErr>(s@)
                },
                Err(e) => spec_verify(self.blocks@, self.unspent_outputs@, *new_block)
                    == Err::<Set<Seq<u8>>, BlockValidationErr>(e),
            },
    {
        let ghost utxo0 = self.unspent_outputs@;
        if new_block.index as usize != self.blocks.len() {
            return Err(BlockValidationErr::MismatchedIndex);
        }
        let hash = new_block.hash();
        if !check_difficulty(&hash, new_block.difficulty) {
            return Err(BlockValidationErr::InvalidHash);
        }
        if self.blocks.len() != 0 {
            let last_ts = self.blocks[self.blocks.len() - 1].timestamp;
            if new_block.timestamp <= last_ts {
                return Err(BlockValidationErr::AchronologicalTimestamp);
            }
        } else {
            if !is_zero_hash(&new_block.prev_block_hash) {
                return Err(BlockValidationErr::InvalidGenesisBlockFormat);
            }
        }
        if new_block.transactions.len() == 0 {
            return Err(BlockValidationErr::InvalidCoinbaseTransaction);
        }
        let coinbase = &new_block.transactions[0];
        if !coinbase.is_coinbase() {
            return Err(BlockValidationErr::InvalidCoinbaseTransaction);
        }

        let ghost regular = new_block.transactions@.drop_first();
        let mut block_spent = UtxoSet::new();
        let mut block_created = UtxoSet::new();
        let mut total_fee: u128 = 0;
        let ghost mut fee_int: int = 0;
        proof {
            assert(regular.skip(0) =~= regular);
        }
        let mut k: usize = 1;
        while k < new_block.transactions.len()
            invariant
                1 <= k <= new_block.transactions@.len(),
                block_spent.wf(),
                block_created.wf(),
                fee_int >= 0,
                fee_int <= u128::MAX as int ==> total_fee as int == fee_int,
                fee_int > u128::MAX as int ==> total_fee == u128::MAX,
                spec_process(regular, utxo0, Set::empty(), Set::empty(), 0) == spec_process(
                    regular.skip(k - 1),
                    utxo0,
                    block_spent@,
                    block_created@,
                    fee_int,
                ),
            decreases new_block.transactions@.len() - k,
        {
            let ghost head = regular.skip(k - 1);
            proof {
                assert(head[0] == regular[k - 1]);
                assert(regular[k - 1] == new_block.transactions@[k as int]);
            }
            let t = &new_block.transactions[k];
            let mut j: usize = 0;
            while j < t.inputs.len()
                invariant
                    j <= t.inputs@.len(),
                    forall|q: int|
                        0 <= q < j ==> utxo0.contains(output_hash(t.inputs@[q]))
                            && !block_spent@.contains(output_hash(t.inputs@[q])),
                decreases t.inputs@.len() - j,
            {
                let h = t.inputs[j].hash();
                if !self.unspent_outputs.contains(&h) || block_spent.contains(&h) {
                    proof {
                        lemma_hashes_of_contains(t.inputs@, output_hash(t.inputs@[j as int]));
                        assert(input_hash_set(*t).contains(output_hash(t.inputs@[j as int])));
                        assert(spec_process(head, utxo0, block_spent@, block_created@, fee_int)
                            == Err::<(Set<Seq<u8>>, Set<Seq<u8>>, int), BlockValidationErr>(
                            BlockValidationErr::InvalidInput,
                        ));
                    }
                    return Err(BlockValidationErr::InvalidInput);
                }
                j += 1;
            }
            proof {
                assert forall|x: Seq<u8>| input_hash_set(*t).contains(x) implies utxo0.contains(
                    x,
                ) && !block_spent@.contains(x) by {
                    lemma_hashes_of_contains(t.inputs@, x);
                    let q = choose|q: int|
                        0 <= q < t.inputs@.len() && output_hash(t.inputs@[q]) == x;
                    assert(utxo0.contains(output_hash(t.inputs@[q])));
                }
                assert(input_hash_set(*t).subset_of(utxo0));
                assert(input_hash_set(*t).disjoint(block_spent@));
            }
            let in_sum = sum_values_u128(&t.inputs);
            let out_sum = sum_values_u128(&t.outputs);
            if out_sum > in_sum {
                proof {
                    assert(spec_process(head, utxo0, block_spent@, block_created@, fee_int)
                        == Err::<(Set<Seq<u8>>, Set<Seq<u8>>, int), BlockValidationErr>(
                        BlockValidationErr::InsufficientInputValue,
                    ));
                }
                return Err(BlockValidationErr::InsufficientInputValue);
            }
            let ghost spent_old = block_spent@;
            let ghost created_old = block_created@;
            let ghost fee_old = fee_int;
            let fee_tx = in_sum - out_sum;
            if fee_tx > u128::MAX - total_fee {
                total_fee = u128::MAX;
            } else {
                total_fee = total_fee + fee_tx;
            }
            proof {
                fee_int = fee_int + (in_sum - out_sum);
            }
            let in_set = t.input_hashes();
            block_spent.insert_all(&in_set);
            let out_set = t.output_hashes();
            block_created.insert_all(&out_set);
            proof {
                assert(head.drop_first() =~= regular.skip(k as int));
                assert(spec_process(head, utxo0, spent_old, created_old, fee_old)
                    == spec_process(
                    regular.skip(k as int),
                    utxo0,
                    block_spent@,
                    block_created@,
                    fee_int,
                ));
            }
            k += 1;
        }
        proof {
            assert(regular.skip(k - 1) =~= Seq::<Transaction>::empty());
            assert(spec_process(regular, utxo0, Set::empty(), Set::empty(), 0)
                == Ok::<(Set<Seq<u8>>, Set<Seq<u8>>, int), BlockValidationErr>(
                (block_spent@, block_created@, fee_int),
            ));
        }
        let coinbase_out = sum_values_u128(&coinbase.outputs);
        proof {
            lemma_sum_values_bound(coinbase.outputs@);
            let n = coinbase.outputs@.len() as int;
            assert(coinbase.outputs.len() == coinbase.outputs@.len());
            assert(n <= usize::MAX as int);
            assert(usize::MAX as int <= u64::MAX as int);
            assert(n * (u64::MAX as int) < u128::MAX as int) by (nonlinear_arith)
                requires
                    0 <= n <= u64::MAX as int,
            ;
        }
        if coinbase_out < total_fee {
            return Err(BlockValidationErr::InvalidCoinbaseTransaction);
        }
        let mut new_unspent = self.unspent_outputs.clone();
        new_unspent.remove_all(&block_spent);
        new_unspent.insert_all(&block_created);
        let cb_hashes = coinbase.output_hashes();
        new_unspent.insert_all(&cb_hashes);
        Ok(new_unspent)
    }

    /// Submits a block: on success the block is appended, the unspent-output
    /// set replaced by the successor set, and — for the genesis block — the
    /// difficulty for every later block pinned to the genesis difficulty. A
    /// rejected block leaves the ledger exactly as it was.
    pub fn add(&mut self, new_block: Block) -> (r: Result<(), BlockValidationErr>)
        requires
            old(self).wf(),
        ensures
            final(self).wf(),
            match r {
                Ok(_) => {
                    &&& spec_verify(old(self).blocks@, old(self).unspent_outputs@, new_block)
                        is Ok
                    &&& final(self).unspent_outputs@ == spec_verify(
                        old(self).blocks@,
                        old(self).unspent_outputs@,
                        new_block,
                    )->Ok_0
                    &&& final(self).blocks@ == old(self).blocks@.push(new_block)
                    &&& final(self).next_fee == old(self).next_fee
                    &&& final(self).next_difficulty == (if old(self).blocks@.len() == 0 {
                        new_block.difficulty
                    } else {
                        old(self).next_difficulty
                    })
                },
                Err(e) => {
                    &&& spec_verify(old(self).blocks@, old(self).unspent_outputs@, new_block)
                        == Err::<Set<Seq<u8>>, BlockValidationErr>(e)
                    &&& *final(self) == *old(self)
                },
            },
    {
        let new_unspent = match self.verify_block_addition(&new_block) {
            Ok(s) => s,
            Err(e) => {
                return Err(e);
            },
        };
        if self.blocks.len() == 0 {
            self.next_difficulty = new_block.difficulty;
        }
        self.unspent_outputs = new_unspent;
        self.blocks.push(new_block);
        proof {
            lemma_verify_ok_applies(old(self).blocks@, old(self).unspent_outputs@, new_block);
            assert(self.blocks@.drop_last() =~= old(self).blocks@);
            assert(self.blocks@.last() == new_block);
            assert(self.unspent_outputs@ == spec_replay(self.blocks@));
            assert forall|i: int|
                0 <= i < self.blocks@.len() implies (#[trigger] self.blocks@[i]).index as int
                == i by {
                if i < self.blocks@.len() - 1 {
                    assert(self.blocks@[i] == old(self).blocks@[i]);
                }
            }
            assert forall|i: int|
                0 < i < self.blocks@.len() implies (#[trigger] self.blocks@[i]).timestamp
                > self.blocks@[i - 1].timestamp by {
                if i < self.blocks@.len() - 1 {
                    assert(self.blocks@[i] == old(self).blocks@[i]);
                    assert(self.blocks@[i - 1] == old(self).blocks@[i - 1]);
                } else {
                    assert(self.blocks@[i - 1] == old(self).blocks@[i - 1]);
                    assert(old(self).blocks@.last() == old(self).blocks@[i - 1]);
                }
            }
        }
        Ok(())
    }
}

impl Default for Blockchain {
    /// The empty ledger: no blocks, fee 1, difficulty 0, nothing unspent.
    fn default() -> (r: Self)
        ensures
            r.wf(),
            r.blocks@.len() == 0,
            r.unspent_outputs@ == Set::<Seq<u8>>::empty(),
            r.next_difficulty == 0,
            r.next_fee == 1,
    {
        Blockchain {
            blocks: Vec::new(),
            next_difficulty: 0,
            next_fee: 1,
            unspent_outputs: UtxoSet::new(),
        }
    }
}

/// True when `v` is the all-zero 32-byte value.
fn is_zero_hash(v: &Vec<u8>) -> (r: bool)
    ensures
        r == (v@ == zero_hash_seq()),
{
    if v.len() != 32 {
        return false;
    }
    let mut i: usize = 0;
    while i < 32
        invariant
            i <= 32,
            v@.len() == 32,
            forall|j: int| 0 <= j < i ==> v@[j] == 0u8,
        decreases 32 - i,
    {
        if v[i] != 0 {
            return false;
        }
        i += 1;
    }
    proof {
        assert(v@ =~= zero_hash_seq());
    }
    true
}

} // verus!
