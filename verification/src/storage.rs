//! Authenticated collections: an appendable list and a key/value map, each
//! with a Merkle root over the canonical encoding of what it holds.

use crate::crypto;
use crate::crypto::{digest, hash, key_lt};
use crate::merkle::{hash_views, merkle_root, root_of};
use vstd::prelude::*;

verus! {

/// A value that can be stored: it has a mathematical view, a canonical byte
/// encoding that depends on the view alone, and can be copied.
pub trait Record: Sized + View {
    /// The canonical encoding of a value with view `v`.
    spec fn encoding(v: Self::V) -> Seq<u8>;

    /// Writes the canonical encoding.
    fn encode(&self) -> (out: Vec<u8>)
        ensures
            out@ == Self::encoding(self@),
    ;

    /// Copies the value.
    fn duplicate(&self) -> (out: Self)
        ensures
            out@ == self@,
    ;
}

/// The views of a sequence of values.
pub open spec fn views<V: View>(s: Seq<V>) -> Seq<V::V> {
    Seq::new(s.len(), |i: int| s[i]@)
}

/// The leaf hashes of a list: the digest of each item's encoding, in order.
pub open spec fn list_leaves<V: Record>(s: Seq<V::V>) -> Seq<Seq<u8>> {
    Seq::new(s.len(), |i: int| digest(V::encoding(s[i])))
}

/// The root hash of a list with the given contents.
pub open spec fn list_root<V: Record>(s: Seq<V::V>) -> Seq<u8> {
    merkle_root(list_leaves::<V>(s))
}

/// An appendable list with a Merkle root.
pub struct MerkleList<V> {
    items: Vec<V>,
}

impl<V: Record> View for MerkleList<V> {
    type V = Seq<V::V>;

    closed spec fn view(&self) -> Seq<V::V> {
        views(self.items@)
    }
}

impl<V: Record> MerkleList<V> {
    /// An empty list.
    pub fn new() -> (l: Self)
        ensures
            l@ == Seq::<V::V>::empty(),
    {
        let l = MerkleList { items: Vec::new() };
        assert(l@ =~= Seq::<V::V>::empty());
        l
    }

    /// The number of items.
    pub fn len(&self) -> (n: usize)
        ensures
            n == self@.len(),
    {
        self.items.len()
    }

    /// The item at `index`, if there is one.
    pub fn get(&self, index: usize) -> (r: Option<&V>)
        ensures
            index < self@.len() ==> r is Some && r->0@ == self@[index as int],
            index >= self@.len() ==> r is None,
    {
        if index < self.items.len() {
            Some(&self.items[index])
        } else {
            None
        }
    }

    /// Adds an item at the end.
    pub fn append(&mut self, value: V)
        ensures
            final(self)@ == old(self)@.push(value@),
    {
        self.items.push(value);
        assert(self@ =~= old(self)@.push(value@));
    }

    /// Replaces the item at `index`. Returns false, and changes nothing, when
    /// the list has no such index.
    pub fn set(&mut self, index: usize, value: V) -> (done: bool)
        ensures
            done == (index < old(self)@.len()),
            done ==> final(self)@ == old(self)@.update(index as int, value@),
            !done ==> final(self)@ == old(self)@,
    {
        if index < self.items.len() {
            self.items[index] = value;
            assert(self@ =~= old(self)@.update(index as int, value@));
            true
        } else {
            false
        }
    }

    /// Copies of all items, in order.
    pub fn values(&self) -> (out: Vec<V>)
        ensures
            views(out@) == self@,
    {
        let mut out: Vec<V> = Vec::new();
        let n = self.items.len();
        let mut i: usize = 0;
        while i < n
            invariant
                i <= n,
                n == self.items@.len(),
                out@.len() == i,
                forall|j: int| 0 <= j < i ==> out@[j]@ == self.items@[j]@,
            decreases n - i,
        {
            out.push(self.items[i].duplicate());
            i += 1;
        }
        assert(views(out@) =~= self@);
        out
    }

    /// A copy of the list.
    pub fn duplicate(&self) -> (out: Self)
        ensures
            out@ == self@,
    {
        let items = self.values();
        MerkleList { items }
    }

    /// The Merkle root over the digests of the items' encodings.
    pub fn root_hash(&self) -> (root: crypto::Hash)
        ensures
            root@ == list_root::<V>(self@),
    {
        let mut leaves: Vec<crypto::Hash> = Vec::new();
        let n = self.items.len();
        let mut i: usize = 0;
        while i < n
            invariant
                i <= n,
                n == self.items@.len(),
                leaves@.len() == i,
                forall|j: int| 0 <= j < i ==> leaves@[j]@ == digest(V::encoding(self.items@[j]@)),
            decreases n - i,
        {
            let bytes = self.items[i].encode();
            leaves.push(hash(bytes.as_slice()));
            i += 1;
        }
        assert(hash_views(leaves@) =~= list_leaves::<V>(self@));
        root_of(leaves)
    }
}

/// Whether a sequence of keys is strictly increasing in the key order.
pub open spec fn sorted(ks: Seq<Seq<u8>>) -> bool {
    forall|i: int, j: int| 0 <= i < j < ks.len() ==> key_lt(#[trigger] ks[i], #[trigger] ks[j])
}

/// Whether `ks` lists exactly the keys in `s`, in increasing order.
pub open spec fn lists_keys(ks: Seq<Seq<u8>>, s: Set<Seq<u8>>) -> bool {
    &&& sorted(ks)
    &&& forall|k: Seq<u8>| s.contains(k) <==> ks.contains(k)
}

/// The keys of a set in increasing order.
pub open spec fn sorted_keys(s: Set<Seq<u8>>) -> Seq<Seq<u8>> {
    choose|ks: Seq<Seq<u8>>| lists_keys(ks, s)
}

/// The leaf hashes of a map: for each key in increasing order, the digest of
/// the key followed by the digest of the value's encoding.
pub open spec fn map_leaves<V: Record>(m: Map<Seq<u8>, V::V>) -> Seq<Seq<u8>> {
    let ks = sorted_keys(m.dom());
    Seq::new(ks.len(), |i: int| digest(ks[i] + digest(V::encoding(m[ks[i]]))))
}

/// The root hash of a map with the given contents.
pub open spec fn map_root<V: Record>(m: Map<Seq<u8>, V::V>) -> Seq<u8> {
    merkle_root(map_leaves::<V>(m))
}

/// Two byte strings of one length are equal or ordered one way or the other.
pub proof fn lemma_key_order_total(a: Seq<u8>, b: Seq<u8>)
    requires
        a.len() == b.len(),
    ensures
        a == b || key_lt(a, b) || key_lt(b, a),
{
    assert(a.take(0) =~= b.take(0));
    lemma_first_difference(a, b, 0);
}

proof fn lemma_first_difference(a: Seq<u8>, b: Seq<u8>, i: int)
    requires
        a.len() == b.len(),
        0 <= i <= a.len(),
        a.take(i) == b.take(i),
    ensures
        a == b || key_lt(a, b) || key_lt(b, a),
    decreases a.len() - i,
{
    if i == a.len() {
        assert(a.take(i) =~= a);
        assert(b.take(i) =~= b);
    } else if a[i] < b[i] {
        assert(crypto::less_at(a, b, i));
    } else if b[i] < a[i] {
        assert(crypto::less_at(b, a, i));
    } else {
        assert(a.take(i + 1) =~= a.take(i).push(a[i]));
        assert(b.take(i + 1) =~= b.take(i).push(b[i]));
        lemma_first_difference(a, b, i + 1);
    }
}

/// A set of keys has at most one listing in increasing order.
pub proof fn lemma_sorted_keys_unique(a: Seq<Seq<u8>>, b: Seq<Seq<u8>>)
    requires
        sorted(a),
        sorted(b),
        forall|k: Seq<u8>| a.contains(k) <==> b.contains(k),
    ensures
        a == b,
    decreases a.len(),
{
    if a.len() == 0 {
        if b.len() > 0 {
            assert(b.contains(b[0]));
        }
        assert(a =~= b);
    } else {
        assert(a.contains(a[0]));
        assert(b.contains(a[0]));
        let j = choose|j: int| 0 <= j < b.len() && b[j] == a[0];
        assert(b.contains(b[0]));
        assert(a.contains(b[0]));
        let i = choose|i: int| 0 <= i < a.len() && a[i] == b[0];
        if a[0] != b[0] {
            assert(key_lt(b[0], b[j]));
            assert(key_lt(a[0], a[i]));
            crypto::lemma_key_lt_asymmetric(a[0], b[0]);
        }
        let a2 = a.skip(1);
        let b2 = b.skip(1);
        assert(sorted(a2)) by {
            assert forall|x: int, y: int| 0 <= x < y < a2.len() implies key_lt(
                #[trigger] a2[x],
                #[trigger] a2[y],
            ) by {
                assert(key_lt(a[x + 1], a[y + 1]));
            }
        }
        assert(sorted(b2)) by {
            assert forall|x: int, y: int| 0 <= x < y < b2.len() implies key_lt(
                #[trigger] b2[x],
                #[trigger] b2[y],
            ) by {
                assert(key_lt(b[x + 1], b[y + 1]));
            }
        }
        assert forall|k: Seq<u8>| a2.contains(k) <==> b2.contains(k) by {
            if a2.contains(k) {
                let m = choose|m: int| 0 <= m < a2.len() && a2[m] == k;
                assert(key_lt(a[0], a[m + 1]));
                crypto::lemma_key_lt_asymmetric(a[0], k);
                assert(a.contains(k));
                let n = choose|n: int| 0 <= n < b.len() && b[n] == k;
                assert(b2[n - 1] == k);
            }
            if b2.contains(k) {
                let m = choose|m: int| 0 <= m < b2.len() && b2[m] == k;
                assert(key_lt(b[0], b[m + 1]));
                crypto::lemma_key_lt_asymmetric(b[0], k);
                assert(b.contains(k));
                let n = choose|n: int| 0 <= n < a.len() && a[n] == k;
                assert(a2[n - 1] == k);
            }
        }
        lemma_sorted_keys_unique(a2, b2);
        assert(a =~= seq![a[0]] + a2);
        assert(b =~= seq![b[0]] + b2);
    }
}

/// A key/value map with 32-byte keys and a Merkle root.
pub struct MerkleMap<V: Record> {
    keys: Vec<crypto::Hash>,
    values: Vec<V>,
    model: Ghost<Map<Seq<u8>, V::V>>,
}

impl<V: Record> View for MerkleMap<V> {
    type V = Map<Seq<u8>, V::V>;

    closed spec fn view(&self) -> Map<Seq<u8>, V::V> {
        self.model@
    }
}

impl<V: Record> MerkleMap<V> {
    /// The representation invariant: the keys are held in increasing order and
    /// the view maps each to its value.
    pub closed spec fn wf(&self) -> bool {
        &&& self.keys@.len() == self.values@.len()
        &&& sorted(hash_views(self.keys@))
        &&& forall|i: int|
            0 <= i < self.keys@.len() ==> self.model@.contains_key(#[trigger] self.keys@[i]@)
                && self.model@[self.keys@[i]@] == self.values@[i]@
        &&& forall|k: Seq<u8>| #[trigger]
            self.model@.contains_key(k) ==> hash_views(self.keys@).contains(k)
    }

    /// The keys held are the increasing listing of the view's domain.
    proof fn lemma_keys(&self)
        requires
            self.wf(),
        ensures
            lists_keys(hash_views(self.keys@), self@.dom()),
            sorted_keys(self@.dom()) == hash_views(self.keys@),
    {
        let ks = hash_views(self.keys@);
        assert forall|k: Seq<u8>| self@.dom().contains(k) <==> ks.contains(k) by {
            if ks.contains(k) {
                let i = choose|i: int| 0 <= i < ks.len() && ks[i] == k;
                assert(self.model@.contains_key(self.keys@[i]@));
            }
        }
        assert(lists_keys(ks, self@.dom()));
        let chosen = sorted_keys(self@.dom());
        assert(lists_keys(chosen, self@.dom()));
        lemma_sorted_keys_unique(chosen, ks);
    }

    /// An empty map.
    pub fn new() -> (m: Self)
        ensures
            m.wf(),
            m@ == Map::<Seq<u8>, V::V>::empty(),
    {
        let m = MerkleMap { keys: Vec::new(), values: Vec::new(), model: Ghost(Map::empty()) };
        assert(hash_views(m.keys@) =~= Seq::<Seq<u8>>::empty());
        m
    }

    /// The number of entries.
    pub fn len(&self) -> (n: usize)
        requires
            self.wf(),
        ensures
            n == self@.dom().len(),
            self@.dom().finite(),
    {
        proof {
            self.lemma_keys();
            let ks = hash_views(self.keys@);
            assert(ks.no_duplicates()) by {
                assert forall|i: int, j: int| 0 <= i < j < ks.len() implies ks[i] != ks[j] by {
                    assert(key_lt(ks[i], ks[j]));
                    crypto::lemma_key_lt_asymmetric(ks[i], ks[j]);
                }
            }
            ks.unique_seq_to_set();
            assert(ks.to_set() =~= self@.dom());
        }
        self.keys.len()
    }

    /// The first position whose key is not below `key`.
    fn position(&self, key: &crypto::Hash) -> (p: usize)
        requires
            self.wf(),
        ensures
            p <= self.keys@.len(),
            forall|j: int| 0 <= j < p ==> key_lt(#[trigger] self.keys@[j]@, key@),
            forall|j: int| p <= j < self.keys@.len() ==> !key_lt(#[trigger] self.keys@[j]@, key@),
    {
        let mut lo: usize = 0;
        let mut hi: usize = self.keys.len();
        let ghost ks = hash_views(self.keys@);
        while lo < hi
            invariant
                lo <= hi <= self.keys@.len(),
                ks == hash_views(self.keys@),
                sorted(ks),
                forall|j: int| 0 <= j < lo ==> key_lt(#[trigger] self.keys@[j]@, key@),
                forall|j: int| hi <= j < self.keys@.len() ==> !key_lt(#[trigger] self.keys@[j]@, key@),
            decreases hi - lo,
        {
            let mid = lo + (hi - lo) / 2;
            if self.keys[mid].less(key) {
                assert forall|j: int| 0 <= j < mid + 1 implies key_lt(
                    #[trigger] self.keys@[j]@,
                    key@,
                ) by {
                    if j < mid {
                        assert(key_lt(ks[j], ks[mid as int]));
                        crypto::lemma_key_lt_transitive(ks[j], ks[mid as int], key@);
                    }
                }
                lo = mid + 1;
            } else {
                assert forall|j: int| mid <= j < self.keys@.len() implies !key_lt(
                    #[trigger] self.keys@[j]@,
                    key@,
                ) by {
                    if j > mid && key_lt(self.keys@[j]@, key@) {
                        assert(key_lt(ks[mid as int], ks[j]));
                        crypto::lemma_key_lt_transitive(ks[mid as int], ks[j], key@);
                    }
                }
                hi = mid;
            }
        }
        lo
    }

    /// What `position` tells about membership.
    proof fn lemma_position(&self, key: Seq<u8>, p: int)
        requires
            self.wf(),
            key.len() == 32,
            0 <= p <= self.keys@.len(),
            forall|j: int| 0 <= j < p ==> key_lt(#[trigger] self.keys@[j]@, key),
            forall|j: int| p <= j < self.keys@.len() ==> !key_lt(#[trigger] self.keys@[j]@, key),
        ensures
            self@.contains_key(key) <==> (p < self.keys@.len() && self.keys@[p]@ == key),
            forall|j: int|
                p <= j < self.keys@.len() && self.keys@[j]@ != key ==> key_lt(
                    key,
                    #[trigger] self.keys@[j]@,
                ),
            forall|j: int| p < j < self.keys@.len() ==> self.keys@[j]@ != key,
    {
        let ks = hash_views(self.keys@);
        assert forall|j: int| p < j < self.keys@.len() implies self.keys@[j]@ != key by {
            assert(key_lt(ks[p], ks[j]));
        }
        assert forall|j: int|
            p <= j < self.keys@.len() && self.keys@[j]@ != key implies key_lt(
            key,
            #[trigger] self.keys@[j]@,
        ) by {
            lemma_key_order_total(key, self.keys@[j]@);
        }
        if self@.contains_key(key) {
            assert(ks.contains(key));
            let i = choose|i: int| 0 <= i < ks.len() && ks[i] == key;
            assert(ks[i] == self.keys@[i]@);
            crypto::lemma_key_lt_irreflexive(key);
        }
    }

    /// Whether the map holds `key`.
    pub fn contains_key(&self, key: &crypto::Hash) -> (r: bool)
        requires
            self.wf(),
        ensures
            r == self@.contains_key(key@),
    {
        let p = self.position(key);
        proof {
            self.lemma_position(key@, p as int);
        }
        p < self.keys.len() && self.keys[p].same(key)
    }

    /// The value stored under `key`, if there is one.
    pub fn get(&self, key: &crypto::Hash) -> (r: Option<&V>)
        requires
            self.wf(),
        ensures
            self@.contains_key(key@) ==> r is Some && r->0@ == self@[key@],
            !self@.contains_key(key@) ==> r is None,
    {
        let p = self.position(key);
        proof {
            self.lemma_position(key@, p as int);
        }
        if p < self.keys.len() && self.keys[p].same(key) {
            Some(&self.values[p])
        } else {
            None
        }
    }

    /// Stores `value` under `key`, replacing what was there.
    pub fn put(&mut self, key: crypto::Hash, value: V)
        requires
            old(self).wf(),
        ensures
            final(self).wf(),
            final(self)@ == old(self)@.insert(key@, value@),
    {
        let p = self.position(&key);
        proof {
            self.lemma_position(key@, p as int);
        }
        let ghost old_keys = hash_views(self.keys@);
        if p < self.keys.len() && self.keys[p].same(&key) {
            self.values[p] = value;
            self.model = Ghost(self.model@.insert(key@, value@));
            proof {
                assert forall|i: int| 0 <= i < self.keys@.len() implies self.model@.contains_key(
                    #[trigger] self.keys@[i]@,
                ) && self.model@[self.keys@[i]@] == self.values@[i]@ by {
                    if i != p {
                        if i < p {
                            assert(key_lt(old_keys[i], old_keys[p as int]));
                        } else {
                            assert(key_lt(old_keys[p as int], old_keys[i]));
                        }
                        crypto::lemma_key_lt_irreflexive(key@);
                    }
                }
                assert forall|k: Seq<u8>| #[trigger]
                    self.model@.contains_key(k) implies hash_views(self.keys@).contains(k) by {
                    if k == key@ {
                        assert(hash_views(self.keys@)[p as int] == k);
                    } else {
                        assert(old(self).model@.contains_key(k));
                    }
                }
            }
        } else {
            self.keys.insert(p, key);
            self.values.insert(p, value);
            self.model = Ghost(self.model@.insert(key@, value@));
            proof {
                let new_keys = hash_views(self.keys@);
                assert forall|i: int| 0 <= i < new_keys.len() implies #[trigger] new_keys[i] == (if i
                    < p {
                    old_keys[i]
                } else if i == p {
                    key@
                } else {
                    old_keys[i - 1]
                }) by {}
                assert forall|i: int, j: int| 0 <= i < j < new_keys.len() implies key_lt(
                    #[trigger] new_keys[i],
                    #[trigger] new_keys[j],
                ) by {
                    if j < p {
                        assert(key_lt(old_keys[i], old_keys[j]));
                    } else if j == p {
                        assert(key_lt(old(self).keys@[i]@, key@));
                    } else if i < p {
                        assert(key_lt(old_keys[i], old_keys[j - 1]));
                    } else if i == p {
                        assert(key_lt(key@, old(self).keys@[j - 1]@));
                    } else {
                        assert(key_lt(old_keys[i - 1], old_keys[j - 1]));
                    }
                }
                assert forall|i: int| 0 <= i < self.keys@.len() implies self.model@.contains_key(
                    #[trigger] self.keys@[i]@,
                ) && self.model@[self.keys@[i]@] == self.values@[i]@ by {
                    if i < p {
                        assert(new_keys[i] == old_keys[i]);
                        assert(key_lt(old(self).keys@[i]@, key@));
                        crypto::lemma_key_lt_irreflexive(key@);
                        assert(old(self).model@.contains_key(old(self).keys@[i]@));
                    } else if i > p {
                        assert(new_keys[i] == old_keys[i - 1]);
                        assert(old(self).keys@[i - 1]@ != key@);
                        assert(old(self).model@.contains_key(old(self).keys@[i - 1]@));
                    }
                }
                assert forall|k: Seq<u8>| #[trigger]
                    self.model@.contains_key(k) implies new_keys.contains(k) by {
                    if k == key@ {
                        assert(new_keys[p as int] == k);
                    } else {
                        assert(old(self).model@.contains_key(k));
                        assert(old_keys.contains(k));
                        let i = choose|i: int| 0 <= i < old_keys.len() && old_keys[i] == k;
                        if i < p {
                            assert(new_keys[i] == k);
                        } else {
                            assert(new_keys[i + 1] == k);
                        }
                    }
                }
            }
        }
    }

    /// A copy of the map.
    pub fn duplicate(&self) -> (out: Self)
        requires
            self.wf(),
        ensures
            out.wf(),
            out@ == self@,
    {
        let mut keys: Vec<crypto::Hash> = Vec::new();
        let mut values: Vec<V> = Vec::new();
        let n = self.keys.len();
        let mut i: usize = 0;
        while i < n
            invariant
                i <= n,
                n == self.keys@.len(),
                n == self.values@.len(),
                keys@.len() == i,
                values@.len() == i,
                forall|j: int| 0 <= j < i ==> keys@[j] == self.keys@[j],
                forall|j: int| 0 <= j < i ==> values@[j]@ == self.values@[j]@,
            decreases n - i,
        {
            keys.push(self.keys[i]);
            values.push(self.values[i].duplicate());
            i += 1;
        }
        let out = MerkleMap { keys, values, model: Ghost(self.model@) };
        assert(hash_views(out.keys@) =~= hash_views(self.keys@));
        out
    }

    /// The Merkle root over the entries in increasing key order.
    pub fn root_hash(&self) -> (root: crypto::Hash)
        requires
            self.wf(),
        ensures
            root@ == map_root::<V>(self@),
    {
        let mut leaves: Vec<crypto::Hash> = Vec::new();
        let n = self.keys.len();
        let mut i: usize = 0;
        while i < n
            invariant
                i <= n,
                n == self.keys@.len(),
                n == self.values@.len(),
                leaves@.len() == i,
                forall|j: int|
                    0 <= j < i ==> leaves@[j]@ == digest(
                        self.keys@[j]@ + digest(V::encoding(self.values@[j]@)),
                    ),
            decreases n - i,
        {
            let inner = hash(self.values[i].encode().as_slice());
            let mut bytes: Vec<u8> = Vec::new();
            crate::codec::put_raw(&mut bytes, self.keys[i].bytes.as_slice());
            crate::codec::put_raw(&mut bytes, inner.bytes.as_slice());
            assert(bytes@ =~= self.keys@[i as int]@ + inner@);
            leaves.push(hash(bytes.as_slice()));
            i += 1;
        }
        proof {
            self.lemma_keys();
            assert(hash_views(leaves@) =~= map_leaves::<V>(self@));
        }
        root_of(leaves)
    }
}

} // verus!
