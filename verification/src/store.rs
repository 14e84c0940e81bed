//! Ordered key-value tables: the in-memory model of the node's
//! persistent store. Each table keeps its entries strictly sorted by
//! the big-endian bytes of the key, as the backing store does.

use vstd::prelude::*;

use crate::numbers::{lex_lt, lex_lt_from};

verus! {

/// Compares two equal-length byte slices for equality.
pub fn bytes_eq(a: &[u8], b: &[u8]) -> (r: bool)
    ensures
        r == (a@ == b@),
{
    if a.len() != b.len() {
        proof {
            assert(a@.len() != b@.len());
        }
        return false;
    }
    let n = a.len();
    let mut i: usize = 0;
    while i < n
        invariant
            i <= n,
            n == a@.len(),
            n == b@.len(),
            forall|j: int| 0 <= j < i ==> a@[j] == b@[j],
        decreases n - i,
    {
        if a[i] != b[i] {
            return false;
        }
        i += 1;
    }
    proof {
        assert(a@ =~= b@);
    }
    true
}

/// Decides the strict lexicographic order on two equal-length slices.
pub fn bytes_lt(a: &[u8], b: &[u8]) -> (r: bool)
    requires
        a@.len() == b@.len(),
    ensures
        r == lex_lt(a@, b@),
{
    let n = a.len();
    let mut i: usize = 0;
    while i < n
        invariant
            i <= n,
            n == a@.len(),
            n == b@.len(),
            forall|j: int| 0 <= j < i ==> a@[j] == b@[j],
            lex_lt(a@, b@) == lex_lt_from(a@, b@, i as int),
        decreases n - i,
    {
        if a[i] < b[i] {
            return true;
        }
        if a[i] > b[i] {
            return false;
        }
        i += 1;
    }
    false
}

/// Of two equal-length keys, one is smaller, or they are equal.
pub proof fn lemma_lex_connex_from(a: Seq<u8>, b: Seq<u8>, i: int)
    requires
        a.len() == b.len(),
        0 <= i <= a.len(),
    ensures
        lex_lt_from(a, b, i) || lex_lt_from(b, a, i) || (forall|j: int|
            i <= j < a.len() ==> a[j] == b[j]),
    decreases a.len() - i,
{
    if i < a.len() {
        if a[i] == b[i] {
            lemma_lex_connex_from(a, b, i + 1);
        }
    }
}

/// Of two distinct equal-length keys, exactly one order holds.
pub proof fn lemma_lex_connex(a: Seq<u8>, b: Seq<u8>)
    requires
        a.len() == b.len(),
    ensures
        lex_lt(a, b) || lex_lt(b, a) || a == b,
{
    lemma_lex_connex_from(a, b, 0);
    if !lex_lt(a, b) && !lex_lt(b, a) {
        assert(a =~= b);
    }
}

/// The order is irreflexive and asymmetric.
pub proof fn lemma_lex_asym_from(a: Seq<u8>, b: Seq<u8>, i: int)
    requires
        0 <= i,
        lex_lt_from(a, b, i),
    ensures
        !lex_lt_from(b, a, i),
        !(a =~= b),
    decreases a.len() - i,
{
    if i < a.len() && i < b.len() {
        if a[i] == b[i] {
            lemma_lex_asym_from(a, b, i + 1);
        }
    }
}

/// The order is irreflexive and asymmetric.
pub proof fn lemma_lex_asym(a: Seq<u8>, b: Seq<u8>)
    requires
        lex_lt(a, b),
    ensures
        !lex_lt(b, a),
        a != b,
{
    lemma_lex_asym_from(a, b, 0);
    if a == b {
        assert(a =~= b);
    }
}

/// The order is transitive.
pub proof fn lemma_lex_trans_from(a: Seq<u8>, b: Seq<u8>, c: Seq<u8>, i: int)
    requires
        a.len() == b.len(),
        b.len() == c.len(),
        0 <= i,
        lex_lt_from(a, b, i),
        lex_lt_from(b, c, i),
    ensures
        lex_lt_from(a, c, i),
    decreases a.len() - i,
{
    if i < a.len() {
        if a[i] == b[i] && b[i] == c[i] {
            lemma_lex_trans_from(a, b, c, i + 1);
        }
    }
}

/// The order is transitive.
pub proof fn lemma_lex_trans(a: Seq<u8>, b: Seq<u8>, c: Seq<u8>)
    requires
        a.len() == b.len(),
        b.len() == c.len(),
        lex_lt(a, b),
        lex_lt(b, c),
    ensures
        lex_lt(a, c),
{
    lemma_lex_trans_from(a, b, c, 0);
}

/// A key of an ordered table: a fixed-length byte string.
pub trait StoreKey: Sized + Copy {
    /// The key as its canonical byte string.
    spec fn key_view(&self) -> Seq<u8>;

    /// Every key of one table has the same byte length.
    spec fn key_len() -> nat;

    proof fn lemma_key_len(&self)
        ensures
            self.key_view().len() == Self::key_len(),
    ;

    fn key_eq(&self, other: &Self) -> (r: bool)
        ensures
            r == (self.key_view() == other.key_view()),
    ;

    fn key_lt(&self, other: &Self) -> (r: bool)
        ensures
            r == lex_lt(self.key_view(), other.key_view()),
    ;
}

/// First value bound to `key`, scanning left to right.
pub open spec fn assoc_get<V>(entries: Seq<(Seq<u8>, V)>, key: Seq<u8>) -> Option<V>
    decreases entries.len(),
{
    if entries.len() == 0 {
        None
    } else if entries[0].0 == key {
        Some(entries[0].1)
    } else {
        assoc_get(entries.drop_first(), key)
    }
}

/// Scanning past non-matching entries does not change the lookup.
pub proof fn lemma_assoc_get_skip<V>(entries: Seq<(Seq<u8>, V)>, key: Seq<u8>, i: int)
    requires
        0 <= i <= entries.len(),
        forall|j: int| 0 <= j < i ==> entries[j].0 != key,
    ensures
        assoc_get(entries, key) == assoc_get(entries.skip(i), key),
    decreases i,
{
    if i > 0 {
        lemma_assoc_get_skip(entries.drop_first(), key, i - 1);
        assert(entries.drop_first().skip(i - 1) =~= entries.skip(i));
    } else {
        assert(entries.skip(0) =~= entries);
    }
}

/// An update in place only changes the lookup of that entry's key.
pub proof fn lemma_assoc_get_update<V>(
    entries: Seq<(Seq<u8>, V)>,
    key: Seq<u8>,
    value: V,
    p: int,
    probe: Seq<u8>,
)
    requires
        0 <= p < entries.len(),
        entries[p].0 == key,
        forall|j: int| 0 <= j < p ==> entries[j].0 != key,
    ensures
        assoc_get(entries.update(p, (key, value)), key) == Some(value),
        probe != key ==> assoc_get(entries.update(p, (key, value)), probe) == assoc_get(
            entries,
            probe,
        ),
    decreases p,
{
    if p == 0 {
        assert(entries.update(0, (key, value))[0].0 == key);
        if probe != key {
            assert(entries.update(0, (key, value)).drop_first() =~= entries.drop_first());
        }
    } else {
        lemma_assoc_get_update(entries.drop_first(), key, value, p - 1, probe);
        assert(entries.update(p, (key, value)).drop_first() =~= entries.drop_first().update(
            p - 1,
            (key, value),
        ));
        assert(entries.update(p, (key, value))[0] == entries[0]);
    }
}

/// Inserting an absent key binds it and changes no other lookup.
pub proof fn lemma_assoc_get_insert<V>(
    entries: Seq<(Seq<u8>, V)>,
    key: Seq<u8>,
    value: V,
    p: int,
    probe: Seq<u8>,
)
    requires
        0 <= p <= entries.len(),
        forall|j: int| 0 <= j < entries.len() ==> entries[j].0 != key,
    ensures
        assoc_get(entries.insert(p, (key, value)), key) == Some(value),
        probe != key ==> assoc_get(entries.insert(p, (key, value)), probe) == assoc_get(
            entries,
            probe,
        ),
    decreases p,
{
    if p == 0 {
        assert(entries.insert(0, (key, value))[0] == (key, value));
        assert(entries.insert(0, (key, value)).drop_first() =~= entries);
    } else {
        lemma_assoc_get_insert(entries.drop_first(), key, value, p - 1, probe);
        assert(entries.insert(p, (key, value)).drop_first() =~= entries.drop_first().insert(
            p - 1,
            (key, value),
        ));
        assert(entries.insert(p, (key, value))[0] == entries[0]);
    }
}

/// Removing the only entry of a key unbinds it and changes no other
/// lookup.
pub proof fn lemma_assoc_get_remove<V>(entries: Seq<(Seq<u8>, V)>, key: Seq<u8>, p: int, probe: Seq<
    u8,
>)
    requires
        0 <= p < entries.len(),
        entries[p].0 == key,
        forall|j: int| 0 <= j < entries.len() && j != p ==> entries[j].0 != key,
    ensures
        assoc_get(entries.remove(p), key) == None::<V>,
        probe != key ==> assoc_get(entries.remove(p), probe) == assoc_get(entries, probe),
    decreases p,
{
    if p == 0 {
        assert(entries.remove(0) =~= entries.drop_first());
        lemma_assoc_get_absent(entries.drop_first(), key);
    } else {
        lemma_assoc_get_remove(entries.drop_first(), key, p - 1, probe);
        assert(entries.remove(p).drop_first() =~= entries.drop_first().remove(p - 1));
        assert(entries.remove(p)[0] == entries[0]);
    }
}

/// A key bound nowhere looks up to nothing.
pub proof fn lemma_assoc_get_absent<V>(entries: Seq<(Seq<u8>, V)>, key: Seq<u8>)
    requires
        forall|j: int| 0 <= j < entries.len() ==> entries[j].0 != key,
    ensures
        assoc_get(entries, key) == None::<V>,
    decreases entries.len(),
{
    if entries.len() > 0 {
        lemma_assoc_get_absent(entries.drop_first(), key);
    }
}

/// A key bound somewhere looks up to something.
pub proof fn lemma_assoc_get_present<V>(entries: Seq<(Seq<u8>, V)>, key: Seq<u8>, p: int)
    requires
        0 <= p < entries.len(),
        entries[p].0 == key,
    ensures
        assoc_get(entries, key) is Some,
    decreases p,
{
    if p > 0 {
        if entries[0].0 != key {
            lemma_assoc_get_present(entries.drop_first(), key, p - 1);
        }
    }
}

/// A successful lookup names some entry with that key.
pub proof fn lemma_assoc_get_some_index<V>(entries: Seq<(Seq<u8>, V)>, key: Seq<u8>)
    requires
        assoc_get(entries, key) is Some,
    ensures
        exists|q: int|
            0 <= q < entries.len() && (#[trigger] entries[q]).0 == key && assoc_get(entries, key)
                == Some(entries[q].1),
    decreases entries.len(),
{
    if entries.len() > 0 {
        if entries[0].0 == key {
            assert(entries[0].0 == key && assoc_get(entries, key) == Some(entries[0].1));
        } else {
            lemma_assoc_get_some_index(entries.drop_first(), key);
            let q = choose|q: int|
                0 <= q < entries.drop_first().len() && (#[trigger] entries.drop_first()[q]).0
                    == key && assoc_get(entries.drop_first(), key) == Some(
                    entries.drop_first()[q].1,
                );
            assert(entries[q + 1].0 == key && assoc_get(entries, key) == Some(entries[q + 1].1));
        }
    }
}

/// An ordered table from fixed-length byte keys to values.
pub struct Table<K, V> {
    pub entries: Vec<(K, V)>,
}

impl<K: StoreKey, V: Copy> Table<K, V> {
    /// The entries as (key bytes, value) pairs.
    pub open spec fn view_entries(&self) -> Seq<(Seq<u8>, V)> {
        Seq::new(
            self.entries@.len(),
            |i: int| (self.entries@[i].0.key_view(), self.entries@[i].1),
        )
    }

    /// Entries strictly ascending in key order; keys are unique.
    pub open spec fn wf(&self) -> bool {
        &&& forall|i: int, j: int|
            0 <= i < j < self.entries@.len() ==> lex_lt(
                #[trigger] self.entries@[i].0.key_view(),
                #[trigger] self.entries@[j].0.key_view(),
            )
        &&& forall|i: int|
            0 <= i < self.entries@.len() ==> (#[trigger] self.entries@[i].0.key_view()).len()
                == K::key_len()
    }

    /// The value bound to a key.
    pub open spec fn spec_get(&self, key: Seq<u8>) -> Option<V> {
        assoc_get(self.view_entries(), key)
    }

    pub open spec fn spec_len(&self) -> nat {
        self.entries@.len()
    }

    pub fn new() -> (r: Table<K, V>)
        ensures
            r.wf(),
            r.spec_len() == 0,
            forall|k: Seq<u8>| #[trigger] r.spec_get(k) == None::<V>,
    {
        let t = Table { entries: Vec::new() };
        proof {
            assert forall|k: Seq<u8>| #[trigger] t.spec_get(k) == None::<V> by {
                assert(t.view_entries().len() == 0);
            }
        }
        t
    }

    pub fn len(&self) -> (r: usize)
        ensures
            r == self.spec_len(),
    {
        self.entries.len()
    }

    /// Looks a key up.
    pub fn get(&self, key: &K) -> (r: Option<V>)
        requires
            self.wf(),
        ensures
            r == self.spec_get(key.key_view()),
    {
        let n = self.entries.len();
        let mut i: usize = 0;
        while i < n
            invariant
                i <= n,
                n == self.entries@.len(),
                forall|j: int| 0 <= j < i ==> self.view_entries()[j].0 != key.key_view(),
            decreases n - i,
        {
            if self.entries[i].0.key_eq(key) {
                proof {
                    lemma_assoc_get_skip(self.view_entries(), key.key_view(), i as int);
                    assert(self.view_entries().skip(i as int)[0] == self.view_entries()[i as int]);
                }
                return Some(self.entries[i].1);
            }
            i += 1;
        }
        proof {
            lemma_assoc_get_skip(self.view_entries(), key.key_view(), n as int);
            assert(self.view_entries().skip(n as int) =~= Seq::<(Seq<u8>, V)>::empty());
        }
        None
    }

    /// Whether a key is bound.
    pub fn contains_key(&self, key: &K) -> (r: bool)
        requires
            self.wf(),
        ensures
            r == (self.spec_get(key.key_view()) is Some),
    {
        match self.get(key) {
            Some(_) => true,
            None => false,
        }
    }

    /// The index of the first entry whose key is not below `key`.
    fn lower_bound(&self, key: &K) -> (r: usize)
        requires
            self.wf(),
        ensures
            r <= self.spec_len(),
            forall|j: int| 0 <= j < r ==> lex_lt(#[trigger] self.entries@[j].0.key_view(), key.key_view()),
            r < self.spec_len() ==> !lex_lt(self.entries@[r as int].0.key_view(), key.key_view()),
    {
        let n = self.entries.len();
        let mut i: usize = 0;
        while i < n
            invariant
                i <= n,
                n == self.entries@.len(),
                self.wf(),
                forall|j: int|
                    0 <= j < i ==> lex_lt(
                        #[trigger] self.entries@[j].0.key_view(),
                        key.key_view(),
                    ),
            decreases n - i,
        {
            if !self.entries[i].0.key_lt(key) {
                return i;
            }
            i += 1;
        }
        n
    }

    /// Binds a key to a value, replacing any earlier binding.
    pub fn put(&mut self, key: &K, value: V)
        requires
            old(self).wf(),
            key.key_view().len() == K::key_len(),
        ensures
            final(self).wf(),
            final(self).spec_get(key.key_view()) == Some(value),
            forall|k: Seq<u8>|
                k != key.key_view() ==> #[trigger] final(self).spec_get(k) == old(self).spec_get(k),
            old(self).spec_get(key.key_view()) is Some ==> final(self).spec_len() == old(
                self,
            ).spec_len(),
            old(self).spec_get(key.key_view()) is None ==> final(self).spec_len() == old(
                self,
            ).spec_len() + 1,
            old(self).spec_get(key.key_view()) is Some ==> exists|q: int|
                0 <= q < old(self).entries@.len() && (#[trigger] old(
                    self,
                ).entries@[q]).0.key_view() == key.key_view() && old(self).spec_get(key.key_view())
                    == Some(old(self).entries@[q].1) && final(self).entries@ == old(
                    self,
                ).entries@.update(q, (*key, value)),
            old(self).spec_get(key.key_view()) is None ==> exists|q: int|
                0 <= q <= old(self).entries@.len() && final(self).entries@ == old(
                    self,
                ).entries@.insert(q, (*key, value)),
    {
        let p = self.lower_bound(key);
        let ghost kv = key.key_view();
        let ghost entries0 = self.view_entries();
        proof {
            assert forall|j: int| 0 <= j < p implies self.view_entries()[j].0 != kv by {
                lemma_lex_asym(self.entries@[j].0.key_view(), kv);
            }
        }
        if p < self.entries.len() && self.entries[p].0.key_eq(key) {
            self.entries.set(p, (*key, value));
            proof {
                assert(self.view_entries() =~= entries0.update(p as int, (kv, value)));
                assert forall|probe: Seq<u8>| probe != kv implies #[trigger] assoc_get(
                    self.view_entries(),
                    probe,
                ) == assoc_get(entries0, probe) by {
                    lemma_assoc_get_update(entries0, kv, value, p as int, probe);
                }
                lemma_assoc_get_update(entries0, kv, value, p as int, kv);
                lemma_assoc_get_present(entries0, kv, p as int);
                assert forall|i: int, j: int|
                    0 <= i < j < self.entries@.len() implies lex_lt(
                    #[trigger] self.entries@[i].0.key_view(),
                    #[trigger] self.entries@[j].0.key_view(),
                ) by {
                    assert(old(self).entries@[i].0.key_view() == self.entries@[i].0.key_view()
                        || i == p);
                    assert(old(self).entries@[j].0.key_view() == self.entries@[j].0.key_view()
                        || j == p);
                }
                lemma_assoc_get_skip(entries0, kv, p as int);
                assert(entries0.skip(p as int)[0] == entries0[p as int]);
                assert(old(self).entries@[p as int].0.key_view() == kv && old(self).spec_get(kv)
                    == Some(old(self).entries@[p as int].1) && self.entries@ == old(
                self,
                ).entries@.update(p as int, (*key, value)));
            }
        } else {
            proof {
                // Every entry differs from the key: those before p are
                // below it, those from p on are above it.
                if p < self.entries@.len() {
                    lemma_lex_connex(self.entries@[p as int].0.key_view(), kv);
                }
                assert forall|j: int|
                    0 <= j < self.entries@.len() implies self.view_entries()[j].0 != kv by {
                    if j < p {
                        lemma_lex_asym(self.entries@[j].0.key_view(), kv);
                    } else if j == p {
                        lemma_lex_asym(kv, self.entries@[j].0.key_view());
                    } else {
                        lemma_lex_trans(
                            kv,
                            self.entries@[p as int].0.key_view(),
                            self.entries@[j].0.key_view(),
                        );
                        lemma_lex_asym(kv, self.entries@[j].0.key_view());
                    }
                }
                lemma_assoc_get_absent(entries0, kv);
            }
            self.entries.insert(p, (*key, value));
            proof {
                assert(self.view_entries() =~= entries0.insert(p as int, (kv, value)));
                assert forall|probe: Seq<u8>| probe != kv implies #[trigger] assoc_get(
                    self.view_entries(),
                    probe,
                ) == assoc_get(entries0, probe) by {
                    lemma_assoc_get_insert(entries0, kv, value, p as int, probe);
                }
                lemma_assoc_get_insert(entries0, kv, value, p as int, kv);
                key.lemma_key_len();
                assert forall|i: int, j: int|
                    0 <= i < j < self.entries@.len() implies lex_lt(
                    #[trigger] self.entries@[i].0.key_view(),
                    #[trigger] self.entries@[j].0.key_view(),
                ) by {
                    let pi = p as int;
                    let n0 = old(self).entries@.len() as int;
                    assert(self.entries@ == old(self).entries@.insert(pi, (*key, value)));
                    if i < pi {
                        assert(self.entries@[i] == old(self).entries@[i]);
                    } else if i == pi {
                        assert(self.entries@[i].0.key_view() == kv);
                    } else {
                        assert(self.entries@[i] == old(self).entries@[i - 1]);
                    }
                    if j < pi {
                        assert(self.entries@[j] == old(self).entries@[j]);
                    } else if j == pi {
                        assert(self.entries@[j].0.key_view() == kv);
                    } else {
                        assert(self.entries@[j] == old(self).entries@[j - 1]);
                    }
                    if i == pi || j == pi {
                        if pi < n0 {
                            lemma_lex_connex(old(self).entries@[pi].0.key_view(), kv);
                            assert(lex_lt(kv, old(self).entries@[pi].0.key_view()));
                        }
                        if i == pi && j > pi + 1 {
                            lemma_lex_trans(
                                kv,
                                old(self).entries@[pi].0.key_view(),
                                old(self).entries@[j - 1].0.key_view(),
                            );
                        }
                    }
                }
                assert(0 <= p as int <= old(self).entries@.len() && self.entries@ == old(
                    self,
                ).entries@.insert(p as int, (*key, value)));
            }
        }
    }

    /// Unbinds a key; absent keys are left alone.
    pub fn del(&mut self, key: &K)
        requires
            old(self).wf(),
        ensures
            final(self).wf(),
            final(self).spec_get(key.key_view()) == None::<V>,
            forall|k: Seq<u8>|
                k != key.key_view() ==> #[trigger] final(self).spec_get(k) == old(self).spec_get(k),
            old(self).spec_get(key.key_view()) is Some ==> final(self).spec_len() == old(
                self,
            ).spec_len() - 1,
            old(self).spec_get(key.key_view()) is None ==> final(self).spec_len() == old(
                self,
            ).spec_len(),
            old(self).spec_get(key.key_view()) is Some ==> exists|q: int|
                0 <= q < old(self).entries@.len() && (#[trigger] old(
                    self,
                ).entries@[q]).0.key_view() == key.key_view() && old(self).spec_get(key.key_view())
                    == Some(old(self).entries@[q].1) && final(self).entries@ == old(
                    self,
                ).entries@.remove(q),
            old(self).spec_get(key.key_view()) is None ==> final(self).entries@ == old(
                self,
            ).entries@,
    {
        let ghost kv = key.key_view();
        let ghost entries0 = self.view_entries();
        let n = self.entries.len();
        let mut i: usize = 0;
        while i < n
            invariant
                i <= n,
                n == self.entries@.len(),
                old(self).wf(),
                self.entries@ == old(self).entries@,
                forall|j: int| 0 <= j < i ==> entries0[j].0 != kv,
                entries0 == old(self).view_entries(),
                kv == key.key_view(),
            decreases n - i,
        {
            proof {
                assert(self.wf());
                assert(entries0[i as int].0 == self.entries@[i as int].0.key_view());
            }
            if self.entries[i].0.key_eq(key) {
                proof {
                    assert(entries0.len() == n);
                    assert(entries0[i as int].0 == kv);
                    assert forall|j: int|
                        0 <= j < entries0.len() && j != i implies entries0[j].0 != kv by {
                        if j > i {
                            lemma_lex_asym(
                                self.entries@[i as int].0.key_view(),
                                self.entries@[j].0.key_view(),
                            );
                            assert(entries0[j].0 == self.entries@[j].0.key_view());
                        }
                    }
                    lemma_assoc_get_present(entries0, kv, i as int);
                }
                self.entries.remove(i);
                proof {
                    assert(self.entries@ == old(self).entries@.remove(i as int));
                    assert(self.view_entries() =~= entries0.remove(i as int));
                    assert forall|probe: Seq<u8>| probe != kv implies #[trigger] assoc_get(
                        self.view_entries(),
                        probe,
                    ) == assoc_get(entries0, probe) by {
                        lemma_assoc_get_remove(entries0, kv, i as int, probe);
                    }
                    lemma_assoc_get_remove(entries0, kv, i as int, kv);
                    assert forall|x: int, y: int|
                        0 <= x < y < self.entries@.len() implies lex_lt(
                        #[trigger] self.entries@[x].0.key_view(),
                        #[trigger] self.entries@[y].0.key_view(),
                    ) by {
                        let ii = i as int;
                        if x < ii && y < ii {
                        } else if x < ii {
                            assert(self.entries@[y] == old(self).entries@[y + 1]);
                        } else {
                            assert(self.entries@[x] == old(self).entries@[x + 1]);
                            assert(self.entries@[y] == old(self).entries@[y + 1]);
                        }
                    }
                    assert forall|x: int|
                        0 <= x < self.entries@.len() implies (
                    #[trigger] self.entries@[x].0.key_view()).len() == K::key_len() by {
                        let ii = i as int;
                        if x < ii {
                        } else {
                            assert(self.entries@[x] == old(self).entries@[x + 1]);
                        }
                    }
                    lemma_assoc_get_skip(entries0, kv, i as int);
                    assert(entries0.skip(i as int)[0] == entries0[i as int]);
                    assert(old(self).entries@[i as int].0.key_view() == kv && old(self).spec_get(
                        kv,
                    ) == Some(old(self).entries@[i as int].1) && self.entries@ == old(
                    self,
                    ).entries@.remove(i as int));
                }
                return ;
            }
            i += 1;
        }
        proof {
            assert(entries0.len() == n);
            lemma_assoc_get_absent(entries0, kv);
        }
    }

    /// Removes every entry.
    pub fn clear(&mut self)
        ensures
            final(self).wf(),
            final(self).spec_len() == 0,
            forall|k: Seq<u8>| #[trigger] final(self).spec_get(k) == None::<V>,
    {
        self.entries = Vec::new();
        proof {
            assert(self.view_entries() =~= Seq::<(Seq<u8>, V)>::empty());
        }
    }

    /// A copy of every entry, ascending by key.
    pub fn to_entries(&self) -> (r: Vec<(K, V)>)
        ensures
            r@ == self.entries@,
    {
        let mut out: Vec<(K, V)> = Vec::new();
        let n = self.entries.len();
        let mut i: usize = 0;
        while i < n
            invariant
                i <= n,
                n == self.entries@.len(),
                out@ == self.entries@.subrange(0, i as int),
            decreases n - i,
        {
            out.push(self.entries[i]);
            proof {
                assert(out@ =~= self.entries@.subrange(0, i + 1));
            }
            i += 1;
        }
        proof {
            assert(self.entries@.subrange(0, n as int) =~= self.entries@);
        }
        out
    }

    /// A copy of the entries from the first key not below `key` on,
    /// ascending by key.
    pub fn entries_from(&self, key: &K) -> (r: Vec<(K, V)>)
        requires
            self.wf(),
        ensures
            exists|p: int|
                0 <= p <= self.entries@.len() && r@ == self.entries@.skip(p) && (forall|j: int|
                    0 <= j < p ==> lex_lt(
                        #[trigger] self.entries@[j].0.key_view(),
                        key.key_view(),
                    )) && (p < self.entries@.len() ==> !lex_lt(
                    self.entries@[p as int].0.key_view(),
                    key.key_view(),
                )),
    {
        let p = self.lower_bound(key);
        let n = self.entries.len();
        let mut out: Vec<(K, V)> = Vec::new();
        let mut i: usize = p;
        while i < n
            invariant
                p <= i <= n,
                n == self.entries@.len(),
                out@ == self.entries@.subrange(p as int, i as int),
            decreases n - i,
        {
            out.push(self.entries[i]);
            proof {
                assert(out@ =~= self.entries@.subrange(p as int, i + 1));
            }
            i += 1;
        }
        proof {
            assert(out@ =~= self.entries@.skip(p as int));
        }
        out
    }
}


impl StoreKey for crate::numbers::Account {
    open spec fn key_view(&self) -> Seq<u8> {
        self.bytes@
    }

    open spec fn key_len() -> nat {
        32
    }

    proof fn lemma_key_len(&self) {
    }

    fn key_eq(&self, other: &Self) -> (r: bool) {
        crate::numbers::bytes32_eq(&self.bytes, &other.bytes)
    }

    fn key_lt(&self, other: &Self) -> (r: bool) {
        crate::numbers::bytes32_lt(&self.bytes, &other.bytes)
    }
}

impl StoreKey for crate::numbers::BlockHash {
    open spec fn key_view(&self) -> Seq<u8> {
        self.bytes@
    }

    open spec fn key_len() -> nat {
        32
    }

    proof fn lemma_key_len(&self) {
    }

    fn key_eq(&self, other: &Self) -> (r: bool) {
        crate::numbers::bytes32_eq(&self.bytes, &other.bytes)
    }

    fn key_lt(&self, other: &Self) -> (r: bool) {
        crate::numbers::bytes32_lt(&self.bytes, &other.bytes)
    }
}

/// The key of a pending (unreceived) amount: destination account and
/// hash of the send block.
#[derive(Clone, Copy, Debug)]
pub struct PendingKey {
    pub account: crate::numbers::Account,
    pub hash: crate::numbers::BlockHash,
}

impl PartialEq for PendingKey {
    fn eq(&self, other: &PendingKey) -> (r: bool) {
        self.account == other.account && self.hash == other.hash
    }
}

impl Eq for PendingKey {}

impl vstd::std_specs::cmp::PartialEqSpecImpl for PendingKey {
    open spec fn obeys_eq_spec() -> bool {
        true
    }

    open spec fn eq_spec(&self, other: &PendingKey) -> bool {
        self.account@ == other.account@ && self.hash@ == other.hash@
    }
}

impl PendingKey {
    pub fn new(account: crate::numbers::Account, hash: crate::numbers::BlockHash) -> (r:
        PendingKey)
        ensures
            r.account@ == account@,
            r.hash@ == hash@,
    {
        PendingKey { account, hash }
    }

    /// The canonical 64-byte key: account then send hash.
    pub fn key_bytes(&self) -> (r: Vec<u8>)
        ensures
            r@ == self.key_view(),
    {
        let mut out: Vec<u8> = Vec::new();
        crate::wire::push_bytes(&mut out, self.account.as_bytes().as_slice());
        crate::wire::push_bytes(&mut out, self.hash.as_bytes().as_slice());
        out
    }
}

impl StoreKey for PendingKey {
    open spec fn key_view(&self) -> Seq<u8> {
        self.account@ + self.hash@
    }

    open spec fn key_len() -> nat {
        64
    }

    proof fn lemma_key_len(&self) {
    }

    fn key_eq(&self, other: &Self) -> (r: bool) {
        let a = self.key_bytes();
        let b = other.key_bytes();
        bytes_eq(a.as_slice(), b.as_slice())
    }

    fn key_lt(&self, other: &Self) -> (r: bool) {
        let a = self.key_bytes();
        let b = other.key_bytes();
        bytes_lt(a.as_slice(), b.as_slice())
    }
}

/// A peer's remote endpoint: a 16-byte address and a port.
#[derive(Clone, Copy, Debug)]
pub struct EndpointKey {
    pub address: [u8; 16],
    pub port: u16,
}

impl PartialEq for EndpointKey {
    fn eq(&self, other: &EndpointKey) -> (r: bool) {
        bytes_eq(self.address.as_slice(), other.address.as_slice()) && self.port == other.port
    }
}

impl Eq for EndpointKey {}

impl vstd::std_specs::cmp::PartialEqSpecImpl for EndpointKey {
    open spec fn obeys_eq_spec() -> bool {
        true
    }

    open spec fn eq_spec(&self, other: &EndpointKey) -> bool {
        self.address@ == other.address@ && self.port == other.port
    }
}

impl EndpointKey {
    pub fn new(address: [u8; 16], port: u16) -> (r: EndpointKey)
        ensures
            r.address@ == address@,
            r.port == port,
    {
        EndpointKey { address, port }
    }

    /// The canonical 18-byte key: address then port big-endian.
    pub fn key_bytes(&self) -> (r: Vec<u8>)
        ensures
            r@ == self.key_view(),
    {
        let mut out: Vec<u8> = Vec::new();
        crate::wire::push_bytes(&mut out, self.address.as_slice());
        out.push(#[verifier::truncate] (((self.port >> 8) & 0xff) as u8));
        out.push(#[verifier::truncate] ((self.port & 0xff) as u8));
        proof {
            assert(out@ =~= self.key_view());
        }
        out
    }
}

impl StoreKey for EndpointKey {
    open spec fn key_view(&self) -> Seq<u8> {
        self.address@ + seq![((self.port >> 8) & 0xff) as u8, (self.port & 0xff) as u8]
    }

    open spec fn key_len() -> nat {
        18
    }

    proof fn lemma_key_len(&self) {
    }

    fn key_eq(&self, other: &Self) -> (r: bool) {
        let a = self.key_bytes();
        let b = other.key_bytes();
        let r = bytes_eq(a.as_slice(), b.as_slice());
        proof {
            if self.key_view() == other.key_view() {
                assert(self.key_view()[16] == other.key_view()[16]);
                assert(self.key_view()[17] == other.key_view()[17]);
                let p = self.port;
                let q = other.port;
                assert(((p >> 8) & 0xff) as u8 == ((q >> 8) & 0xff) as u8 && (p & 0xff) as u8 == (q
                    & 0xff) as u8 ==> p == q) by (bit_vector);
            }
        }
        r
    }

    fn key_lt(&self, other: &Self) -> (r: bool) {
        let a = self.key_bytes();
        let b = other.key_bytes();
        bytes_lt(a.as_slice(), b.as_slice())
    }
}

/// Persisted metadata of one account.
#[derive(Clone, Copy, Debug)]
pub struct AccountInfo {
    pub head: crate::numbers::BlockHash,
    pub representative: crate::numbers::Account,
    pub open_block: crate::numbers::BlockHash,
    pub balance: crate::numbers::Amount,
    pub modified: u64,
    pub block_count: u64,
    pub epoch: crate::blocks::Epoch,
}

impl PartialEq for AccountInfo {
    fn eq(&self, other: &AccountInfo) -> (r: bool) {
        self.head == other.head && self.representative == other.representative && self.open_block
            == other.open_block && self.balance == other.balance && self.modified == other.modified
            && self.block_count == other.block_count && self.epoch == other.epoch
    }
}

impl Eq for AccountInfo {}

impl vstd::std_specs::cmp::PartialEqSpecImpl for AccountInfo {
    open spec fn obeys_eq_spec() -> bool {
        true
    }

    open spec fn eq_spec(&self, other: &AccountInfo) -> bool {
        self.head@ == other.head@ && self.representative@ == other.representative@
            && self.open_block@ == other.open_block@ && self.balance == other.balance
            && self.modified == other.modified && self.block_count == other.block_count
            && self.epoch == other.epoch
    }
}

/// The stored value of a pending amount: who sent it and how much.
#[derive(Clone, Copy, Debug)]
pub struct PendingInfo {
    pub source: crate::numbers::Account,
    pub amount: crate::numbers::Amount,
    pub epoch: crate::blocks::Epoch,
}

impl PartialEq for PendingInfo {
    fn eq(&self, other: &PendingInfo) -> (r: bool) {
        self.source == other.source && self.amount == other.amount && self.epoch == other.epoch
    }
}

impl Eq for PendingInfo {}

impl vstd::std_specs::cmp::PartialEqSpecImpl for PendingInfo {
    open spec fn obeys_eq_spec() -> bool {
        true
    }

    open spec fn eq_spec(&self, other: &PendingInfo) -> bool {
        self.source@ == other.source@ && self.amount == other.amount && self.epoch == other.epoch
    }
}

/// The greatest cemented height of an account, and the block there.
#[derive(Clone, Copy, Debug)]
pub struct ConfirmationHeightInfo {
    pub height: u64,
    pub frontier: crate::numbers::BlockHash,
}

impl PartialEq for ConfirmationHeightInfo {
    fn eq(&self, other: &ConfirmationHeightInfo) -> (r: bool) {
        self.height == other.height && self.frontier == other.frontier
    }
}

impl Eq for ConfirmationHeightInfo {}

impl vstd::std_specs::cmp::PartialEqSpecImpl for ConfirmationHeightInfo {
    open spec fn obeys_eq_spec() -> bool {
        true
    }

    open spec fn eq_spec(&self, other: &ConfirmationHeightInfo) -> bool {
        self.height == other.height && self.frontier@ == other.frontier@
    }
}

/// An environment of ordered tables; it only hands out table handles.
pub struct LmdbEnv {
    pub next_database: u32,
}

impl LmdbEnv {
    pub fn new() -> (r: LmdbEnv)
        ensures
            r.next_database == 0,
    {
        LmdbEnv { next_database: 0 }
    }

    /// Creates a table and returns its handle.
    pub fn create_db(&mut self) -> (r: u32)
        requires
            old(self).next_database < 0xffff_ffff,
        ensures
            r == old(self).next_database,
            final(self).next_database == old(self).next_database + 1,
    {
        let db = self.next_database;
        self.next_database = self.next_database + 1;
        db
    }
}

/// The accounts table: account to account metadata, ascending by key.
pub struct LmdbAccountStore {
    pub database: u32,
    pub table: Table<crate::numbers::Account, AccountInfo>,
}

impl LmdbAccountStore {
    pub open spec fn wf(&self) -> bool {
        self.table.wf()
    }

    /// The value bound to an account's key bytes.
    pub open spec fn spec_get(&self, key: Seq<u8>) -> Option<AccountInfo> {
        self.table.spec_get(key)
    }

    pub fn new(env: &mut LmdbEnv) -> (r: LmdbAccountStore)
        requires
            old(env).next_database < 0xffff_ffff,
        ensures
            r.wf(),
            r.table.spec_len() == 0,
            forall|k: Seq<u8>| #[trigger] r.spec_get(k) == None::<AccountInfo>,
            final(env).next_database == old(env).next_database + 1,
    {
        LmdbAccountStore { database: env.create_db(), table: Table::new() }
    }

    pub fn database(&self) -> (r: u32)
        ensures
            r == self.database,
    {
        self.database
    }

    /// Binds an account to its metadata.
    pub fn put(&mut self, account: &crate::numbers::Account, info: &AccountInfo)
        requires
            old(self).wf(),
        ensures
            final(self).wf(),
            final(self).spec_get(account@) == Some(*info),
            forall|k: Seq<u8>|
                k != account@ ==> #[trigger] final(self).spec_get(k) == old(self).spec_get(k),
            final(self).database == old(self).database,
            old(self).spec_get(account@) is Some ==> final(self).table.spec_len() == old(
                self,
            ).table.spec_len(),
            old(self).spec_get(account@) is None ==> final(self).table.spec_len() == old(
                self,
            ).table.spec_len() + 1,
    {
        self.table.put(account, *info);
    }

    pub fn get(&self, account: &crate::numbers::Account) -> (r: Option<AccountInfo>)
        requires
            self.wf(),
        ensures
            r == self.spec_get(account@),
    {
        self.table.get(account)
    }

    pub fn del(&mut self, account: &crate::numbers::Account)
        requires
            old(self).wf(),
        ensures
            final(self).wf(),
            final(self).spec_get(account@) == None::<AccountInfo>,
            forall|k: Seq<u8>|
                k != account@ ==> #[trigger] final(self).spec_get(k) == old(self).spec_get(k),
            final(self).database == old(self).database,
            old(self).spec_get(account@) is Some ==> final(self).table.spec_len() == old(
                self,
            ).table.spec_len() - 1,
            old(self).spec_get(account@) is None ==> final(self).table.spec_len() == old(
                self,
            ).table.spec_len(),
    {
        self.table.del(account);
    }

    pub fn contains(&self, account: &crate::numbers::Account) -> (r: bool)
        requires
            self.wf(),
        ensures
            r == (self.spec_get(account@) is Some),
    {
        self.table.contains_key(account)
    }

    pub fn count(&self) -> (r: u64)
        requires
            self.table.spec_len() <= 0xffff_ffff_ffff_ffff,
        ensures
            r == self.table.spec_len(),
    {
        self.table.len() as u64
    }

    /// Every entry, ascending by account.
    pub fn begin(&self) -> (r: Vec<(crate::numbers::Account, AccountInfo)>)
        ensures
            r@ == self.table.entries@,
    {
        self.table.to_entries()
    }

    /// The entries from the first account not below `account` on.
    pub fn begin_account(&self, account: &crate::numbers::Account) -> (r: Vec<
        (crate::numbers::Account, AccountInfo)>)
        requires
            self.wf(),
        ensures
            exists|p: int|
                0 <= p <= self.table.entries@.len() && r@ == self.table.entries@.skip(p) && (
                forall|j: int|
                    0 <= j < p ==> crate::numbers::lex_lt(
                        #[trigger] self.table.entries@[j].0.key_view(),
                        account.key_view(),
                    )) && (p < self.table.entries@.len() ==> !crate::numbers::lex_lt(
                    self.table.entries@[p as int].0.key_view(),
                    account.key_view(),
                )),
    {
        self.table.entries_from(account)
    }
}

/// The peers table: live endpoints and when they were last seen.
pub struct LmdbPeerStore {
    pub database: u32,
    pub table: Table<EndpointKey, u64>,
}

impl LmdbPeerStore {
    pub open spec fn wf(&self) -> bool {
        self.table.wf()
    }

    /// The time bound to an endpoint's key bytes.
    pub open spec fn spec_get(&self, key: Seq<u8>) -> Option<u64> {
        self.table.spec_get(key)
    }

    pub fn new(env: &mut LmdbEnv) -> (r: LmdbPeerStore)
        requires
            old(env).next_database < 0xffff_ffff,
        ensures
            r.wf(),
            r.table.spec_len() == 0,
            forall|k: Seq<u8>| #[trigger] r.spec_get(k) == None::<u64>,
            final(env).next_database == old(env).next_database + 1,
    {
        LmdbPeerStore { database: env.create_db(), table: Table::new() }
    }

    pub fn database(&self) -> (r: u32)
        ensures
            r == self.database,
    {
        self.database
    }

    /// Binds an endpoint to the time it was last seen.
    pub fn put(&mut self, endpoint: &EndpointKey, time: u64)
        requires
            old(self).wf(),
        ensures
            final(self).wf(),
            final(self).spec_get(endpoint.key_view()) == Some(time),
            forall|k: Seq<u8>|
                k != endpoint.key_view() ==> #[trigger] final(self).spec_get(k) == old(
                    self,
                ).spec_get(k),
            final(self).database == old(self).database,
            old(self).spec_get(endpoint.key_view()) is Some ==> final(self).table.spec_len()
                == old(self).table.spec_len(),
            old(self).spec_get(endpoint.key_view()) is None ==> final(self).table.spec_len()
                == old(self).table.spec_len() + 1,
    {
        proof {
            endpoint.lemma_key_len();
        }
        self.table.put(endpoint, time);
    }

    pub fn get(&self, endpoint: &EndpointKey) -> (r: Option<u64>)
        requires
            self.wf(),
        ensures
            r == self.spec_get(endpoint.key_view()),
    {
        self.table.get(endpoint)
    }

    pub fn del(&mut self, endpoint: &EndpointKey)
        requires
            old(self).wf(),
        ensures
            final(self).wf(),
            final(self).spec_get(endpoint.key_view()) == None::<u64>,
            forall|k: Seq<u8>|
                k != endpoint.key_view() ==> #[trigger] final(self).spec_get(k) == old(
                    self,
                ).spec_get(k),
            final(self).database == old(self).database,
            old(self).spec_get(endpoint.key_view()) is Some ==> final(self).table.spec_len()
                == old(self).table.spec_len() - 1,
            old(self).spec_get(endpoint.key_view()) is None ==> final(self).table.spec_len()
                == old(self).table.spec_len(),
    {
        self.table.del(endpoint);
    }

    pub fn contains(&self, endpoint: &EndpointKey) -> (r: bool)
        requires
            self.wf(),
        ensures
            r == (self.spec_get(endpoint.key_view()) is Some),
    {
        self.table.contains_key(endpoint)
    }

    pub fn count(&self) -> (r: u64)
        requires
            self.table.spec_len() <= 0xffff_ffff_ffff_ffff,
        ensures
            r == self.table.spec_len(),
    {
        self.table.len() as u64
    }

    pub fn clear(&mut self)
        ensures
            final(self).wf(),
            final(self).table.spec_len() == 0,
            forall|k: Seq<u8>| #[trigger] final(self).spec_get(k) == None::<u64>,
            final(self).database == old(self).database,
    {
        self.table.clear();
    }

    /// Every entry, ascending by endpoint.
    pub fn begin(&self) -> (r: Vec<(EndpointKey, u64)>)
        ensures
            r@ == self.table.entries@,
    {
        self.table.to_entries()
    }
}

} // verus!
