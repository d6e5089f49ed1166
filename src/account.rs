//! Account identities, and a small map keyed by them that keeps its keys in
//! the order in which they were first inserted.
use vstd::prelude::*;

verus! {

/// A 32-byte account identity (a caller, a pool, an asset ledger), held as
/// its high and low 16 bytes.
#[derive(Debug, Clone, Copy, PartialEq, Eq, Structural)]
pub struct AccountId {
    pub hi: u128,
    pub lo: u128,
}

impl AccountId {
    pub fn new(hi: u128, lo: u128) -> (r: AccountId)
        ensures
            r.hi == hi,
            r.lo == lo,
    {
        AccountId { hi, lo }
    }
}

} // verus!

verus! {

/// The spender allowed by an owner: the key of an allowance.
#[derive(Debug, Clone, Copy, PartialEq, Eq, Structural)]
pub struct AccountPair {
    pub owner: AccountId,
    pub spender: AccountId,
}

/// A key that can be compared at run time.
pub trait Key: Copy + Sized {
    fn same(&self, other: &Self) -> (r: bool)
        ensures
            r == (*self == *other);
}

impl Key for AccountId {
    fn same(&self, other: &Self) -> (r: bool) {
        *self == *other
    }
}

impl Key for AccountPair {
    fn same(&self, other: &Self) -> (r: bool) {
        *self == *other
    }
}

/// The last position of `k` in `s`, or -1 where `s` does not hold it.
pub open spec fn index_of<K>(s: Seq<K>, k: K) -> int
    decreases s.len(),
{
    if s.len() == 0 {
        -1
    } else if s.last() == k {
        s.len() - 1
    } else {
        index_of(s.drop_last(), k)
    }
}

pub proof fn lemma_index_of<K>(s: Seq<K>, k: K)
    ensures
        -1 <= index_of(s, k) < s.len(),
        index_of(s, k) >= 0 ==> s[index_of(s, k)] == k,
        (index_of(s, k) == -1) == !s.contains(k),
    decreases s.len(),
{
    if s.len() > 0 {
        lemma_index_of(s.drop_last(), k);
        if s.last() != k {
            if s.contains(k) {
                let j = choose|j: int| 0 <= j < s.len() && s[j] == k;
                assert(s.drop_last()[j] == k);
            }
            if s.drop_last().contains(k) {
                let j = choose|j: int| 0 <= j < s.len() - 1 && s.drop_last()[j] == k;
                assert(s[j] == k);
            }
        } else {
            assert(s[s.len() - 1] == k);
        }
    }
}

/// In a sequence without duplicates, the position of an element is its index.
pub proof fn lemma_index_of_unique<K>(s: Seq<K>, i: int)
    requires
        s.no_duplicates(),
        0 <= i < s.len(),
    ensures
        index_of(s, s[i]) == i,
{
    lemma_index_of(s, s[i]);
    assert(s.contains(s[i]));
}

/// Appending a key leaves the positions of the others as they were.
pub proof fn lemma_index_of_push<K>(s: Seq<K>, k: K, j: K)
    ensures
        index_of(s.push(k), j) == if j == k { s.len() as int } else { index_of(s, j) },
{
    assert(s.push(k).drop_last() =~= s);
}

/// Values keyed by distinct keys, kept in two vectors of equal length.
#[derive(Debug, Clone)]
pub struct LinearMap<K, V> {
    pub keys: Vec<K>,
    pub values: Vec<V>,
}

impl<K: Key, V: Copy> LinearMap<K, V> {
    pub open spec fn wf(&self) -> bool {
        &&& self.keys.len() == self.values.len()
        &&& self.keys@.no_duplicates()
    }

    pub open spec fn contains(&self, k: K) -> bool {
        self.keys@.contains(k)
    }

    /// The value of `k`, where the map holds it.
    pub open spec fn value(&self, k: K) -> V {
        self.values@[index_of(self.keys@, k)]
    }

    pub fn new() -> (r: Self)
        ensures
            r.wf(),
            r.keys@.len() == 0,
    {
        LinearMap { keys: Vec::new(), values: Vec::new() }
    }

    pub fn find(&self, k: &K) -> (r: Option<usize>)
        requires
            self.wf(),
        ensures
            r is None == !self.contains(*k),
            r matches Some(i) ==> i == index_of(self.keys@, *k) && i < self.keys.len() && self.keys@[i as int] == *k,
    {
        proof {
            lemma_index_of(self.keys@, *k);
        }
        let mut i = self.keys.len();
        assert(self.keys@.subrange(0, i as int) =~= self.keys@);
        while i > 0
            invariant
                i <= self.keys.len(),
                index_of(self.keys@.subrange(0, i as int), *k) == index_of(self.keys@, *k),
            decreases i,
        {
            let ghost pre = self.keys@.subrange(0, i as int);
            if self.keys[i - 1].same(k) {
                assert(pre.last() == *k);
                return Some(i - 1);
            }
            assert(pre.drop_last() =~= self.keys@.subrange(0, i - 1));
            i = i - 1;
        }
        assert(self.keys@.subrange(0, 0).len() == 0);
        None
    }

    pub fn get(&self, k: &K) -> (r: Option<V>)
        requires
            self.wf(),
        ensures
            r is None == !self.contains(*k),
            r matches Some(v) ==> v == self.value(*k),
    {
        match self.find(k) {
            Some(i) => Some(self.values[i]),
            None => None,
        }
    }

    /// Sets the value of `k`; a new key goes last.
    pub fn insert(&mut self, k: K, v: V)
        requires
            old(self).wf(),
        ensures
            final(self).wf(),
            final(self).keys@ == if old(self).contains(k) { old(self).keys@ } else { old(self).keys@.push(k) },
            final(self).values@ == if old(self).contains(k) {
                old(self).values@.update(index_of(old(self).keys@, k), v)
            } else {
                old(self).values@.push(v)
            },
            final(self).contains(k),
            final(self).value(k) == v,
            forall|j: K| j != k ==> (final(self).contains(j) == old(self).contains(j)),
            forall|j: K| j != k && old(self).contains(j) ==> final(self).value(j) == old(self).value(j),
    {
        proof {
            lemma_index_of(old(self).keys@, k);
        }
        match self.find(&k) {
            Some(i) => {
                self.values.set(i, v);
                assert forall|j: K| j != k && old(self).contains(j) implies self.value(j) == old(self).value(j) by {
                    lemma_index_of(old(self).keys@, j);
                }
            },
            None => {
                self.keys.push(k);
                self.values.push(v);
                assert(self.keys@.contains(k)) by {
                    assert(self.keys@[self.keys@.len() - 1] == k);
                }
                assert forall|j: K| j != k implies (self.contains(j) == old(self).contains(j))
                    && (old(self).contains(j) ==> self.value(j) == old(self).value(j)) by {
                    lemma_index_of_push(old(self).keys@, k, j);
                    lemma_index_of(old(self).keys@, j);
                    lemma_index_of(self.keys@, j);
                }
                proof {
                    lemma_index_of_push(old(self).keys@, k, k);
                }
            },
        }
    }
    /// Removes the key at position `i`: the last key and its value take its
    /// place.
    pub fn swap_remove(&mut self, i: usize)
        requires
            old(self).wf(),
            i < old(self).keys.len(),
        ensures
            final(self).wf(),
            final(self).keys@ == old(self).keys@.update(i as int, old(self).keys@.last()).drop_last(),
            final(self).values@ == old(self).values@.update(i as int, old(self).values@.last()).drop_last(),
            !final(self).contains(old(self).keys@[i as int]),
            forall|j: K| j != old(self).keys@[i as int] ==> (final(self).contains(j) == old(self).contains(j)),
            forall|j: K| j != old(self).keys@[i as int] && old(self).contains(j) ==> final(self).value(j) == old(self).value(j),
    {
        let ghost ok = old(self).keys@;
        let ghost n = ok.len() as int;
        let ghost k = ok[i as int];
        self.keys.swap_remove(i);
        self.values.swap_remove(i);
        let ghost nk = self.keys@;
        // position in the old keys of each position in the new ones
        assert forall|a: int| 0 <= a < nk.len() implies #[trigger] nk[a] == ok[if a == i { n - 1 } else { a }] by {}
        assert(nk.no_duplicates()) by {
            assert forall|a: int, b: int| 0 <= a < nk.len() && 0 <= b < nk.len() && a != b implies nk[a] != nk[b] by {
                let pa = if a == i { n - 1 } else { a };
                let pb = if b == i { n - 1 } else { b };
                assert(nk[a] == ok[pa]);
                assert(nk[b] == ok[pb]);
            }
        }
        assert(!nk.contains(k)) by {
            if nk.contains(k) {
                let a = choose|a: int| 0 <= a < nk.len() && nk[a] == k;
                let pa = if a == i { n - 1 } else { a };
                assert(ok[pa] == k);
                assert(ok[i as int] == k);
            }
        }
        assert forall|j: K| j != k implies #[trigger] self.contains(j) == old(self).contains(j)
            && (old(self).contains(j) ==> self.value(j) == old(self).value(j)) by {
            lemma_index_of(ok, j);
            if old(self).contains(j) {
                let p = index_of(ok, j);
                let a = if p == n - 1 { i as int } else { p };
                assert(p != i);
                assert(nk[a] == j);
                assert(self.values@[a] == old(self).values@[p]);
                lemma_index_of_unique(nk, a);
                lemma_index_of_unique(ok, p);
            }
            if self.contains(j) {
                let a = choose|a: int| 0 <= a < nk.len() && nk[a] == j;
                let pa = if a == i { n - 1 } else { a };
                assert(ok[pa] == j);
            }
        }
        assert forall|j: K| j != k && old(self).contains(j) implies #[trigger] self.value(j) == old(self).value(j) by {
            assert(self.contains(j) == old(self).contains(j));
        }
    }
}

} // verus!
