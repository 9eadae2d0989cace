//! A set of 32-byte output hashes, backed by a duplicate-free vector. It
//! stands for the unspent-output set of the ledger and for the input and
//! output hash sets of a transaction.

use vstd::prelude::*;
use vstd::seq_lib::*;

verus! {

/// The views of a sequence of hashes.
pub open spec fn hash_views(s: Seq<Vec<u8>>) -> Seq<Seq<u8>> {
    s.map_values(|h: Vec<u8>| h@)
}

/// Membership in the set of views of a hash sequence, element by element.
pub proof fn lemma_view_contains(s: Seq<Vec<u8>>, x: Seq<u8>)
    ensures
        hash_views(s).to_set().contains(x) <==> (exists|i: int|
            0 <= i < s.len() && s[i]@ == x),
{
    if exists|i: int| 0 <= i < s.len() && s[i]@ == x {
        let i = choose|i: int| 0 <= i < s.len() && s[i]@ == x;
        assert(hash_views(s)[i] == x);
        assert(hash_views(s).contains(x));
    }
    if hash_views(s).to_set().contains(x) {
        let i = choose|i: int| 0 <= i < hash_views(s).len() && hash_views(s)[i] == x;
        assert(s[i]@ == x);
    }
}

/// Growing the prefix of a hash sequence by one element adds exactly that
/// element's view to the set of views.
pub proof fn lemma_take_snoc_views(s: Seq<Vec<u8>>, i: int)
    requires
        0 <= i < s.len(),
    ensures
        hash_views(s.take(i + 1)).to_set() == hash_views(s.take(i)).to_set().insert(s[i]@),
{
    let long = s.take(i + 1);
    let short = s.take(i);
    assert forall|x: Seq<u8>|
        hash_views(long).to_set().contains(x)
        <==> hash_views(short).to_set().insert(s[i]@).contains(x) by {
        lemma_view_contains(long, x);
        lemma_view_contains(short, x);
        if hash_views(long).to_set().contains(x) {
            let k = choose|k: int| 0 <= k < long.len() && long[k]@ == x;
            if k < i {
                assert(short[k]@ == x);
            } else {
                assert(s[i]@ == x);
            }
        }
        if hash_views(short).to_set().contains(x) {
            let k = choose|k: int| 0 <= k < short.len() && short[k]@ == x;
            assert(long[k]@ == x);
        }
        if x == s[i]@ {
            assert(long[i]@ == x);
        }
    }
    assert(hash_views(long).to_set() =~= hash_views(short).to_set().insert(s[i]@));
}

/// A finite set of output hashes. A hash present in the ledger's set denotes
/// a spendable output.
pub struct UtxoSet {
    pub items: Vec<Vec<u8>>,
}

/// True when two byte vectors hold the same bytes.
fn bytes_eq(a: &Vec<u8>, b: &Vec<u8>) -> (r: bool)
    ensures
        r == (a@ == b@),
{
    if a.len() != b.len() {
        return false;
    }
    let mut i: usize = 0;
    while i < a.len()
        invariant
            i <= a@.len(),
            a@.len() == b@.len(),
            forall|j: int| 0 <= j < i ==> a@[j] == b@[j],
        decreases a@.len() - i,
    {
        if a[i] != b[i] {
            return false;
        }
        i += 1;
    }
    proof {
        assert(a@ =~= b@);
    }
    true
}

impl View for UtxoSet {
    type V = Set<Seq<u8>>;

    open spec fn view(&self) -> Set<Seq<u8>> {
        hash_views(self.items@).to_set()
    }
}

impl UtxoSet {
    /// The backing vector holds no hash twice.
    pub open spec fn wf(&self) -> bool {
        hash_views(self.items@).no_duplicates()
    }

    /// The empty set.
    pub fn new() -> (r: UtxoSet)
        ensures
            r@ == Set::<Seq<u8>>::empty(),
            r.wf(),
    {
        let r = UtxoSet { items: Vec::new() };
        proof {
            assert forall|x: Seq<u8>| !r@.contains(x) by {
                lemma_view_contains(r.items@, x);
            }
            assert(r@ =~= Set::<Seq<u8>>::empty());
        }
        r
    }

    /// Membership: whether `h` is in the set.
    pub fn contains(&self, h: &Vec<u8>) -> (r: bool)
        ensures
            r == self@.contains(h@),
    {
        let mut i: usize = 0;
        while i < self.items.len()
            invariant
                i <= self.items@.len(),
                forall|j: int| 0 <= j < i ==> self.items@[j]@ != h@,
            decreases self.items@.len() - i,
        {
            if bytes_eq(&self.items[i], h) {
                proof {
                    lemma_view_contains(self.items@, h@);
                }
                return true;
            }
            i += 1;
        }
        proof {
            lemma_view_contains(self.items@, h@);
        }
        false
    }

    /// Adds `h`; a hash already present is not added twice.
    pub fn insert(&mut self, h: Vec<u8>)
        requires
            old(self).wf(),
        ensures
            final(self)@ == old(self)@.insert(h@),
            final(self).wf(),
    {
        if !self.contains(&h) {
            proof {
                lemma_view_contains(self.items@, h@);
            }
            self.items.push(h);
            proof {
                let before = old(self).items@;
                let after = self.items@;
                assert forall|x: Seq<u8>|
                    final(self)@.contains(x) <==> old(self)@.insert(h@).contains(x) by {
                    lemma_view_contains(before, x);
                    lemma_view_contains(after, x);
                    if x == h@ {
                        assert(after[before.len() as int]@ == x);
                    } else {
                        assert forall|i: int| 0 <= i < after.len() && after[i]@ == x implies
                            0 <= i < before.len() && before[i]@ == x by {}
                        assert forall|i: int| 0 <= i < before.len() && before[i]@ == x implies
                            after[i]@ == x by {}
                    }
                }
                assert(final(self)@ =~= old(self)@.insert(h@));
                assert forall|p: int, q: int|
                    0 <= p < hash_views(after).len() && 0 <= q < hash_views(after).len() && p != q
                    implies hash_views(after)[p] != hash_views(after)[q] by {
                    lemma_view_contains(before, h@);
                    assert(hash_views(after)[p] == after[p]@);
                    assert(hash_views(after)[q] == after[q]@);
                    if p < before.len() {
                        assert(hash_views(before)[p] == before[p]@);
                    }
                    if q < before.len() {
                        assert(hash_views(before)[q] == before[q]@);
                    }
                }
            }
        } else {
            proof {
                assert(old(self)@.insert(h@) =~= old(self)@);
            }
        }
    }

    /// Removes `h`; removing an absent hash leaves the set as it was.
    pub fn remove(&mut self, h: &Vec<u8>)
        requires
            old(self).wf(),
        ensures
            final(self)@ == old(self)@.remove(h@),
            final(self).wf(),
    {
        let mut i: usize = 0;
        while i < self.items.len()
            invariant
                i <= self.items@.len(),
                self.wf(),
                *self == *old(self),
                forall|j: int| 0 <= j < i ==> self.items@[j]@ != h@,
            decreases self.items@.len() - i,
        {
            if bytes_eq(&self.items[i], h) {
                let ghost before = self.items@;
                self.items.swap_remove(i);
                proof {
                    let after = self.items@;
                    assert(after =~= before.update(i as int, before.last()).drop_last());
                    assert forall|x: Seq<u8>|
                        final(self)@.contains(x) <==> old(self)@.remove(h@).contains(x) by {
                        lemma_view_contains(before, x);
                        lemma_view_contains(after, x);
                        if x == h@ {
                            // the only occurrence of h@ in `before` was at i
                            assert forall|k: int| 0 <= k < after.len() implies
                                after[k]@ != h@ by {
                                assert(hash_views(before)[i as int] == h@);
                                if k == i && i < after.len() {
                                    assert(after[k] == before[before.len() - 1]);
                                    assert(hash_views(before)[before.len() - 1]
                                        == before[before.len() - 1]@);
                                } else {
                                    assert(hash_views(before)[k] == before[k]@);
                                }
                            }
                        } else {
                            if exists|k: int| 0 <= k < before.len() && before[k]@ == x {
                                let k = choose|k: int|
                                    0 <= k < before.len() && before[k]@ == x;
                                if k == i {
                                    assert(before[i as int]@ == h@);
                                } else if k < after.len() {
                                    assert(after[k]@ == x);
                                } else {
                                    // k was the last slot, now living at i
                                    assert(after[i as int] == before[before.len() - 1]);
                                }
                            }
                            if exists|k: int| 0 <= k < after.len() && after[k]@ == x {
                                let k = choose|k: int|
                                    0 <= k < after.len() && after[k]@ == x;
                                if k == i {
                                    assert(before[before.len() - 1]@ == x);
                                } else {
                                    assert(before[k]@ == x);
                                }
                            }
                        }
                    }
                    assert(final(self)@ =~= old(self)@.remove(h@));
                    assert forall|p: int, q: int|
                        0 <= p < hash_views(after).len() && 0 <= q < hash_views(after).len()
                        && p != q implies hash_views(after)[p] != hash_views(after)[q] by {
                        assert(hash_views(after)[p] == after[p]@);
                        assert(hash_views(after)[q] == after[q]@);
                        assert(hash_views(before)[p] == before[p]@);
                        assert(hash_views(before)[q] == before[q]@);
                        assert(hash_views(before)[before.len() - 1]
                            == before[before.len() - 1]@);
                        if p == i {
                            assert(after[p] == before[before.len() - 1]);
                        } else {
                            assert(after[p] == before[p]);
                        }
                        if q == i {
                            assert(after[q] == before[before.len() - 1]);
                        } else {
                            assert(after[q] == before[q]);
                        }
                    }
                }
                return;
            }
            i += 1;
        }
        proof {
            lemma_view_contains(self.items@, h@);
            assert(final(self)@ =~= old(self)@.remove(h@));
        }
    }

    /// Removes every hash of `other`.
    pub fn remove_all(&mut self, other: &UtxoSet)
        requires
            old(self).wf(),
        ensures
            final(self)@ == old(self)@.difference(other@),
            final(self).wf(),
    {
        proof {
            assert forall|x: Seq<u8>|
                !hash_views(other.items@.take(0)).to_set().contains(x) by {
                lemma_view_contains(other.items@.take(0), x);
            }
            assert(old(self)@.difference(hash_views(other.items@.take(0)).to_set())
                =~= old(self)@);
        }
        let mut i: usize = 0;
        while i < other.items.len()
            invariant
                i <= other.items@.len(),
                self.wf(),
                self@ == old(self)@.difference(hash_views(other.items@.take(i as int)).to_set()),
            decreases other.items@.len() - i,
        {
            self.remove(&other.items[i]);
            proof {
                lemma_take_snoc_views(other.items@, i as int);
                assert(self@ =~= old(self)@.difference(
                    hash_views(other.items@.take(i + 1)).to_set()));
            }
            i += 1;
        }
        proof {
            assert(other.items@.take(other.items@.len() as int) =~= other.items@);
        }
    }

    /// Adds every hash of `other`.
    pub fn insert_all(&mut self, other: &UtxoSet)
        requires
            old(self).wf(),
        ensures
            final(self)@ == old(self)@.union(other@),
            final(self).wf(),
    {
        proof {
            assert forall|x: Seq<u8>|
                !hash_views(other.items@.take(0)).to_set().contains(x) by {
                lemma_view_contains(other.items@.take(0), x);
            }
            assert(old(self)@.union(hash_views(other.items@.take(0)).to_set())
                =~= old(self)@);
        }
        let mut i: usize = 0;
        while i < other.items.len()
            invariant
                i <= other.items@.len(),
                self.wf(),
                self@ == old(self)@.union(hash_views(other.items@.take(i as int)).to_set()),
            decreases other.items@.len() - i,
        {
            let h = copy_bytes(&other.items[i]);
            self.insert(h);
            proof {
                lemma_take_snoc_views(other.items@, i as int);
                assert(self@ =~= old(self)@.union(
                    hash_views(other.items@.take(i + 1)).to_set()));
            }
            i += 1;
        }
        proof {
            assert(other.items@.take(other.items@.len() as int) =~= other.items@);
        }
    }

    /// How many hashes the set holds.
    pub fn len(&self) -> (n: usize)
        requires
            self.wf(),
        ensures
            n == self@.len(),
    {
        proof {
            hash_views(self.items@).unique_seq_to_set();
        }
        self.items.len()
    }
}

impl Clone for UtxoSet {
    /// A copy with the same hashes.
    fn clone(&self) -> (r: Self)
        ensures
            r@ == self@,
            r.wf() == self.wf(),
    {
        let mut items: Vec<Vec<u8>> = Vec::new();
        let mut i: usize = 0;
        while i < self.items.len()
            invariant
                i <= self.items@.len(),
                items@.len() == i,
                forall|j: int| 0 <= j < i ==> items@[j]@ == self.items@[j]@,
            decreases self.items@.len() - i,
        {
            items.push(copy_bytes(&self.items[i]));
            i += 1;
        }
        let r = UtxoSet { items };
        proof {
            assert(hash_views(r.items@) =~= hash_views(self.items@));
        }
        r
    }
}

/// A fresh vector with the same bytes.
pub(crate) fn copy_bytes(v: &Vec<u8>) -> (r: Vec<u8>)
    ensures
        r@ == v@,
{
    let mut r: Vec<u8> = Vec::new();
    let mut i: usize = 0;
    while i < v.len()
        invariant
            i <= v@.len(),
            r@ =~= v@.take(i as int),
        decreases v@.len() - i,
    {
        r.push(v[i]);
        proof {
            assert(r@ =~= v@.take(i + 1));
        }
        i += 1;
    }
    proof {
        assert(r@ =~= v@);
    }
    r
}

} // verus!
