//! Value-transfer records: outputs, and transactions built from them.
//!
//! An output is identified purely by its content hash, so two outputs with
//! identical address and value are the same entry of the unspent-output set.
//! A transaction with zero inputs is a coinbase transaction.

use vstd::prelude::*;
use vstd::string::StrSliceExecFns;
use vstd::utf8::encode_utf8;

use crate::Address;
use crate::digest::{digest, digest_of};
use crate::encode::{spec_u64_be, u64_bytes};
use crate::utxo::UtxoSet;

verus! {

/// A value record: `value` units owed to `address`. Immutable once
/// constructed.
#[derive(Clone)]
pub struct Output {
    pub address: Address,
    pub value: u64,
}

/// The canonical bytes of an output: the UTF-8 bytes of the address, then
/// the 8 big-endian bytes of the value. No delimiters, no length prefixes.
pub open spec fn output_bytes(o: Output) -> Seq<u8> {
    encode_utf8(o.address@) + spec_u64_be(o.value)
}

/// The content hash of an output: the identifier under which it is spent.
pub open spec fn output_hash(o: Output) -> Seq<u8> {
    digest_of(output_bytes(o))
}

impl Output {
    /// The canonical byte encoding, the input to the digest.
    pub fn bytes(&self) -> (r: Vec<u8>)
        ensures
            r@ == output_bytes(*self),
    {
        let mut r = self.address.as_str().as_bytes_vec();
        let mut v = u64_bytes(self.value);
        r.append(&mut v);
        r
    }

    /// The 32-byte content hash of this output.
    pub fn hash(&self) -> (r: Vec<u8>)
        ensures
            r@ == output_hash(*self),
            r@.len() == 32,
    {
        let b = self.bytes();
        digest(&b)
    }
}

/// The set of content hashes of a sequence of outputs.
pub open spec fn hashes_of(s: Seq<Output>) -> Set<Seq<u8>>
    decreases s.len(),
{
    if s.len() == 0 {
        Set::empty()
    } else {
        hashes_of(s.drop_last()).insert(output_hash(s.last()))
    }
}

/// A hash is in `hashes_of(s)` exactly when some output of `s` has it.
pub proof fn lemma_hashes_of_contains(s: Seq<Output>, x: Seq<u8>)
    ensures
        hashes_of(s).contains(x) <==> (exists|i: int| 0 <= i < s.len() && output_hash(s[i]) == x),
    decreases s.len(),
{
    if s.len() > 0 {
        lemma_hashes_of_contains(s.drop_last(), x);
        if hashes_of(s).contains(x) {
            if x == output_hash(s.last()) {
                assert(output_hash(s[s.len() - 1]) == x);
            } else {
                let i = choose|i: int|
                    0 <= i < s.drop_last().len() && output_hash(s.drop_last()[i]) == x;
                assert(output_hash(s[i]) == x);
            }
        }
        if exists|i: int| 0 <= i < s.len() && output_hash(s[i]) == x {
            let i = choose|i: int| 0 <= i < s.len() && output_hash(s[i]) == x;
            if i < s.len() - 1 {
                assert(output_hash(s.drop_last()[i]) == x);
            }
        }
    }
}

/// The sum of the values of a sequence of outputs, as an unbounded integer.
pub open spec fn sum_values(s: Seq<Output>) -> int
    decreases s.len(),
{
    if s.len() == 0 {
        0
    } else {
        sum_values(s.drop_last()) + s.last().value
    }
}

/// The sum of a sequence of outputs is at most one value's worth per output.
pub proof fn lemma_sum_values_bound(s: Seq<Output>)
    ensures
        0 <= sum_values(s) <= s.len() * (u64::MAX as int),
    decreases s.len(),
{
    if s.len() > 0 {
        lemma_sum_values_bound(s.drop_last());
    }
}

/// The concatenated canonical bytes of a sequence of outputs, in order.
pub open spec fn outputs_bytes(s: Seq<Output>) -> Seq<u8>
    decreases s.len(),
{
    if s.len() == 0 {
        Seq::empty()
    } else {
        outputs_bytes(s.drop_last()) + output_bytes(s.last())
    }
}

/// An ordered movement of value: consumes the outputs named by `inputs` and
/// creates those in `outputs`. Zero inputs make it a coinbase transaction.
#[derive(Clone)]
pub struct Transaction {
    pub inputs: Vec<Output>,
    pub outputs: Vec<Output>,
}

/// The canonical bytes of a transaction: inputs first, in order, then
/// outputs, with no separators.
pub open spec fn transaction_bytes(t: Transaction) -> Seq<u8> {
    outputs_bytes(t.inputs@) + outputs_bytes(t.outputs@)
}

/// The set of hashes a transaction consumes.
pub open spec fn input_hash_set(t: Transaction) -> Set<Seq<u8>> {
    hashes_of(t.inputs@)
}

/// The set of hashes a transaction creates.
pub open spec fn output_hash_set(t: Transaction) -> Set<Seq<u8>> {
    hashes_of(t.outputs@)
}

/// The values of `v` summed exactly: the total of at most `usize::MAX`
/// 64-bit values always fits in 128 bits.
pub(crate) fn sum_values_u128(v: &Vec<Output>) -> (r: u128)
    ensures
        r as int == sum_values(v@),
{
    let mut r: u128 = 0;
    let mut i: usize = 0;
    while i < v.len()
        invariant
            i <= v@.len(),
            r as int == sum_values(v@.take(i as int)),
            r as int <= i * (u64::MAX as int),
        decreases v@.len() - i,
    {
        proof {
            assert(v@.take(i + 1).drop_last() =~= v@.take(i as int));
            assert(v@.take(i + 1).last() == v@[i as int]);
        }
        r = r + (v[i].value as u128);
        i += 1;
    }
    proof {
        assert(v@.take(v@.len() as int) =~= v@);
    }
    r
}

/// The content hashes of `v`, gathered into a set.
fn collect_hashes(v: &Vec<Output>) -> (r: UtxoSet)
    ensures
        r@ == hashes_of(v@),
        r.wf(),
{
    let mut r = UtxoSet::new();
    let mut i: usize = 0;
    while i < v.len()
        invariant
            i <= v@.len(),
            r@ == hashes_of(v@.take(i as int)),
            r.wf(),
        decreases v@.len() - i,
    {
        proof {
            assert(v@.take(i + 1).drop_last() =~= v@.take(i as int));
            assert(v@.take(i + 1).last() == v@[i as int]);
        }
        let h = v[i].hash();
        r.insert(h);
        i += 1;
    }
    proof {
        assert(v@.take(v@.len() as int) =~= v@);
    }
    r
}

/// The concatenated canonical bytes of `v`.
fn outputs_bytes_exec(v: &Vec<Output>) -> (r: Vec<u8>)
    ensures
        r@ == outputs_bytes(v@),
{
    let mut r: Vec<u8> = Vec::new();
    let mut i: usize = 0;
    while i < v.len()
        invariant
            i <= v@.len(),
            r@ == outputs_bytes(v@.take(i as int)),
        decreases v@.len() - i,
    {
        proof {
            assert(v@.take(i + 1).drop_last() =~= v@.take(i as int));
            assert(v@.take(i + 1).last() == v@[i as int]);
        }
        let mut b = v[i].bytes();
        r.append(&mut b);
        i += 1;
    }
    proof {
        assert(v@.take(v@.len() as int) =~= v@);
    }
    r
}

impl Transaction {
    /// The total value consumed by the inputs.
    pub fn input_value(&self) -> (r: u64)
        requires
            sum_values(self.inputs@) <= u64::MAX,
        ensures
            r as int == sum_values(self.inputs@),
    {
        sum_values_u128(&self.inputs) as u64
    }

    /// The total value created by the outputs.
    pub fn output_value(&self) -> (r: u64)
        requires
            sum_values(self.outputs@) <= u64::MAX,
        ensures
            r as int == sum_values(self.outputs@),
    {
        sum_values_u128(&self.outputs) as u64
    }

    /// The set of hashes this transaction consumes.
    pub fn input_hashes(&self) -> (r: UtxoSet)
        ensures
            r@ == input_hash_set(*self),
            r.wf(),
    {
        collect_hashes(&self.inputs)
    }

    /// The set of hashes this transaction creates.
    pub fn output_hashes(&self) -> (r: UtxoSet)
        ensures
            r@ == output_hash_set(*self),
            r.wf(),
    {
        collect_hashes(&self.outputs)
    }

    /// A coinbase transaction consumes nothing.
    pub fn is_coinbase(&self) -> (r: bool)
        ensures
            r == (self.inputs@.len() == 0),
    {
        self.inputs.len() == 0
    }

    /// The canonical byte encoding, the input to the digest.
    pub fn bytes(&self) -> (r: Vec<u8>)
        ensures
            r@ == transaction_bytes(*self),
    {
        let mut r = outputs_bytes_exec(&self.inputs);
        let mut o = outputs_bytes_exec(&self.outputs);
        r.append(&mut o);
        r
    }

    /// The 32-byte digest of the transaction's canonical encoding.
    pub fn hash(&self) -> (r: Vec<u8>)
        ensures
            r@ == digest_of(transaction_bytes(*self)),
            r@.len() == 32,
    {
        let b = self.bytes();
        digest(&b)
    }
}

} // verus!
