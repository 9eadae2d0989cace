//! The laws of the ledger, stated once over all inputs and proved from the
//! contracts of the acceptance protocol.

use vstd::prelude::*;

use crate::block::Block;
use crate::block::block_bytes;
use crate::block::spec_check_difficulty;
use crate::block::zero_hash_seq;
use crate::blockchain::{
    Blockchain, BlockValidationErr, block_created_set, block_spent_set, lemma_verify_ok_applies,
    spec_process, spec_replay, spec_verify,
};
use crate::digest::digest_of;
use crate::transaction::{Transaction, input_hash_set, output_hash_set, sum_values};

verus! {

/// When the transaction scan succeeds, every transaction spent only hashes
/// that were unspent and untouched by the earlier accumulators, no two
/// transactions spent a common hash, and none created value.
proof fn lemma_process_ok_valid(
    txs: Seq<Transaction>,
    utxo: Set<Seq<u8>>,
    spent: Set<Seq<u8>>,
    created: Set<Seq<u8>>,
    fee: int,
)
    requires
        spec_process(txs, utxo, spent, created, fee) is Ok,
    ensures
        forall|i: int|
            0 <= i < txs.len() ==> #[trigger] input_hash_set(txs[i]).subset_of(utxo),
        forall|i: int|
            0 <= i < txs.len() ==> #[trigger] input_hash_set(txs[i]).disjoint(spent),
        forall|i: int, j: int|
            0 <= i < j < txs.len() ==> #[trigger] input_hash_set(txs[i]).disjoint(
                #[trigger] input_hash_set(txs[j]),
            ),
        forall|i: int|
            0 <= i < txs.len() ==> sum_values(#[trigger] txs[i].outputs@) <= sum_values(
                txs[i].inputs@,
            ),
    decreases txs.len(),
{
    if txs.len() > 0 {
        let t = txs[0];
        let rest = txs.drop_first();
        lemma_process_ok_valid(
            rest,
            utxo,
            spent.union(input_hash_set(t)),
            created.union(output_hash_set(t)),
            fee + sum_values(t.inputs@) - sum_values(t.outputs@),
        );
        assert forall|i: int|
            0 <= i < txs.len() implies #[trigger] input_hash_set(txs[i]).subset_of(utxo) by {
            if i > 0 {
                assert(txs[i] == rest[i - 1]);
            }
        }
        assert forall|i: int|
            0 <= i < txs.len() implies #[trigger] input_hash_set(txs[i]).disjoint(spent) by {
            if i > 0 {
                assert(txs[i] == rest[i - 1]);
                assert(input_hash_set(rest[i - 1]).disjoint(spent.union(input_hash_set(t))));
            }
        }
        assert forall|i: int, j: int|
            0 <= i < j < txs.len() implies #[trigger] input_hash_set(txs[i]).disjoint(
            #[trigger] input_hash_set(txs[j]),
        ) by {
            assert(txs[j] == rest[j - 1]);
            if i == 0 {
                assert(input_hash_set(rest[j - 1]).disjoint(spent.union(input_hash_set(t))));
                assert forall|x: Seq<u8>|
                    input_hash_set(txs[0]).contains(x) implies !input_hash_set(
                    txs[j],
                ).contains(x) by {
                    assert(spent.union(input_hash_set(t)).contains(x));
                }
            } else {
                assert(txs[i] == rest[i - 1]);
            }
        }
        assert forall|i: int|
            0 <= i < txs.len() implies sum_values(#[trigger] txs[i].outputs@) <= sum_values(
            txs[i].inputs@,
        ) by {
            if i > 0 {
                assert(txs[i] == rest[i - 1]);
            }
        }
    }
}

/// Replay equivalence: a consistent ledger's unspent-output set equals the
/// set obtained by replaying its chain from genesis — every output created
/// by an accepted block entered it, and every input consumed left it.
pub proof fn lemma_replay_equivalence(chain: Blockchain)
    requires
        chain.wf(),
    ensures
        chain.unspent_outputs@ == spec_replay(chain.blocks@),
{
}

/// No double spend within an accepted block: its regular transactions spend
/// only hashes unspent in the ledger, and no two of them — nor two uses
/// inside one of them, inputs being a set — consume the same hash.
pub proof fn lemma_no_double_spend(blocks: Seq<Block>, utxo: Set<Seq<u8>>, b: Block)
    requires
        spec_verify(blocks, utxo, b) is Ok,
    ensures
        forall|i: int|
            1 <= i < b.transactions@.len() ==> #[trigger] input_hash_set(
                b.transactions@[i],
            ).subset_of(utxo),
        forall|i: int, j: int|
            1 <= i < j < b.transactions@.len() ==> #[trigger] input_hash_set(
                b.transactions@[i],
            ).disjoint(#[trigger] input_hash_set(b.transactions@[j])),
{
    let regular = b.transactions@.drop_first();
    lemma_process_ok_valid(regular, utxo, Set::empty(), Set::empty(), 0);
    assert forall|i: int|
        1 <= i < b.transactions@.len() implies #[trigger] input_hash_set(
        b.transactions@[i],
    ).subset_of(utxo) by {
        assert(b.transactions@[i] == regular[i - 1]);
    }
    assert forall|i: int, j: int|
        1 <= i < j < b.transactions@.len() implies #[trigger] input_hash_set(
        b.transactions@[i],
    ).disjoint(#[trigger] input_hash_set(b.transactions@[j])) by {
        assert(b.transactions@[i] == regular[i - 1]);
        assert(b.transactions@[j] == regular[j - 1]);
    }
}

/// A hash an accepted block spends and does not re-create is gone from the
/// successor set: a later block can never spend it again.
pub proof fn lemma_spent_output_gone(
    blocks: Seq<Block>,
    utxo: Set<Seq<u8>>,
    b: Block,
    x: Seq<u8>,
)
    requires
        spec_verify(blocks, utxo, b) is Ok,
        block_spent_set(b).contains(x),
        !block_created_set(b).contains(x),
    ensures
        !spec_verify(blocks, utxo, b)->Ok_0.contains(x),
{
    lemma_verify_ok_applies(blocks, utxo, b);
}

/// A block with a regular transaction spending a hash that is not unspent
/// is never accepted.
pub proof fn lemma_missing_input_rejected(
    blocks: Seq<Block>,
    utxo: Set<Seq<u8>>,
    b: Block,
    x: Seq<u8>,
    i: int,
)
    requires
        1 <= i < b.transactions@.len(),
        input_hash_set(b.transactions@[i]).contains(x),
        !utxo.contains(x),
    ensures
        spec_verify(blocks, utxo, b) is Err,
{
    if spec_verify(blocks, utxo, b) is Ok {
        lemma_no_double_spend(blocks, utxo, b);
        assert(input_hash_set(b.transactions@[i]).subset_of(utxo));
        assert(false);
    }
}

/// Value conservation: every regular transaction of an accepted block
/// creates at most the value it consumes.
pub proof fn lemma_value_conservation(blocks: Seq<Block>, utxo: Set<Seq<u8>>, b: Block)
    requires
        spec_verify(blocks, utxo, b) is Ok,
    ensures
        forall|i: int|
            1 <= i < b.transactions@.len() ==> sum_values(
                #[trigger] b.transactions@[i].outputs@,
            ) <= sum_values(b.transactions@[i].inputs@),
{
    let regular = b.transactions@.drop_first();
    lemma_process_ok_valid(regular, utxo, Set::empty(), Set::empty(), 0);
    assert forall|i: int|
        1 <= i < b.transactions@.len() implies sum_values(
        #[trigger] b.transactions@[i].outputs@,
    ) <= sum_values(b.transactions@[i].inputs@) by {
        assert(b.transactions@[i] == regular[i - 1]);
    }
}

/// A block holding a regular transaction whose outputs exceed its inputs,
/// by any positive overage, is never accepted.
pub proof fn lemma_value_creation_rejected(
    blocks: Seq<Block>,
    utxo: Set<Seq<u8>>,
    b: Block,
    i: int,
)
    requires
        1 <= i < b.transactions@.len(),
        sum_values(b.transactions@[i].outputs@) > sum_values(b.transactions@[i].inputs@),
    ensures
        spec_verify(blocks, utxo, b) is Err,
{
    if spec_verify(blocks, utxo, b) is Ok {
        lemma_value_conservation(blocks, utxo, b);
        assert(false);
    }
}

/// Chronology: a block whose timestamp does not exceed the last accepted
/// block's is rejected as achronological whenever the checks before it
/// (index and proof of work) pass.
pub proof fn lemma_chronology(blocks: Seq<Block>, utxo: Set<Seq<u8>>, b: Block)
    requires
        blocks.len() > 0,
        b.index as int == blocks.len() as int,
        spec_check_difficulty(digest_of(block_bytes(b)), b.difficulty),
        b.timestamp <= blocks.last().timestamp,
    ensures
        spec_verify(blocks, utxo, b) == Err::<Set<Seq<u8>>, BlockValidationErr>(
            BlockValidationErr::AchronologicalTimestamp,
        ),
{
}

/// Genesis shape: a first block whose previous-hash field is not all zeroes
/// is rejected whenever the checks before it (index and proof of work)
/// pass.
pub proof fn lemma_genesis_shape(blocks: Seq<Block>, utxo: Set<Seq<u8>>, b: Block)
    requires
        blocks.len() == 0,
        b.index == 0,
        spec_check_difficulty(digest_of(block_bytes(b)), b.difficulty),
        b.prev_block_hash@ != zero_hash_seq(),
    ensures
        spec_verify(blocks, utxo, b) == Err::<Set<Seq<u8>>, BlockValidationErr>(
            BlockValidationErr::InvalidGenesisBlockFormat,
        ),
{
}

} // verus!
