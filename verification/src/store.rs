//! Keyed stores: sequences of key-value entries with distinct keys, walked in
//! the order in which the keys were first written.

use vstd::prelude::*;

verus! {

/// A key of a store: equality of two keys can be decided in executable code
/// and agrees with equality of their views.
pub trait Key: View + Sized {
    /// Whether `self` and `other` are the same key.
    fn same(&self, other: &Self) -> (r: bool)
        ensures
            r == (self@ == other@),
    ;
}

impl Key for u16 {
    fn same(&self, other: &Self) -> (r: bool) {
        *self == *other
    }
}

impl Key for u64 {
    fn same(&self, other: &Self) -> (r: bool) {
        *self == *other
    }
}

impl Key for Vec<u8> {
    fn same(&self, other: &Self) -> (r: bool) {
        if self.len() != other.len() {
            return false;
        }
        let mut i: usize = 0;
        while i < self.len()
            invariant
                i <= self.len(),
                self.len() == other.len(),
                forall|j: int| 0 <= j < i ==> self@[j] == other@[j],
            decreases self.len() - i,
        {
            if self[i] != other[i] {
                return false;
            }
            i += 1;
        }
        proof {
            assert(self@ =~= other@);
        }
        true
    }
}

impl<A: Key, B: Key> Key for (A, B) {
    fn same(&self, other: &Self) -> (r: bool) {
        self.0.same(&other.0) && self.1.same(&other.1)
    }
}

/// The network that a composite key belongs to.
pub trait Scope {
    /// The identifier of that network.
    spec fn net(self) -> u16;
}

impl<B> Scope for (u16, B) {
    open spec fn net(self) -> u16 {
        self.0
    }
}

impl Scope for (u64, u16) {
    open spec fn net(self) -> u16 {
        self.1
    }
}

/// A composite key whose network can be read in executable code.
pub trait NetKey: Key where Self::V: Scope {
    /// The identifier of the network that the key belongs to.
    fn network(&self) -> (n: u16)
        ensures
            n == self@.net(),
    ;
}

impl<B: Key> NetKey for (u16, B) {
    fn network(&self) -> (n: u16) {
        self.0
    }
}

impl NetKey for (u64, u16) {
    fn network(&self) -> (n: u16) {
        self.1
    }
}

/// Some entry of `s` is stored under `k`.
pub open spec fn has_key<K, V>(s: Seq<(K, V)>, k: K) -> bool {
    exists|i: int| 0 <= i < s.len() && (#[trigger] s[i]).0 == k
}

/// Some entry of `s` holds the value `v`.
pub open spec fn has_value<K, V>(s: Seq<(K, V)>, v: V) -> bool {
    exists|i: int| 0 <= i < s.len() && (#[trigger] s[i]).1 == v
}

/// The position of an entry stored under `k`.
pub open spec fn index_of<K, V>(s: Seq<(K, V)>, k: K) -> int {
    choose|i: int| 0 <= i < s.len() && (#[trigger] s[i]).0 == k
}

/// The value stored under `k`.
pub open spec fn value_of<K, V>(s: Seq<(K, V)>, k: K) -> V {
    s[index_of(s, k)].1
}

/// The value stored under `k`, or `d` where nothing is stored under it.
pub open spec fn get_or<K, V>(s: Seq<(K, V)>, k: K, d: V) -> V {
    if has_key(s, k) {
        value_of(s, k)
    } else {
        d
    }
}

/// No two entries share a key.
pub open spec fn distinct_keys<K, V>(s: Seq<(K, V)>) -> bool {
    forall|i: int, j: int| 0 <= i < j < s.len() ==> (#[trigger] s[i]).0 != (#[trigger] s[j]).0
}

/// `s` after `v` is written under `k`: in place where the key is present,
/// at the end where it is new.
pub open spec fn put<K, V>(s: Seq<(K, V)>, k: K, v: V) -> Seq<(K, V)> {
    if has_key(s, k) {
        s.update(index_of(s, k), (k, v))
    } else {
        s.push((k, v))
    }
}

/// `s` without the entry under `k`; the other entries keep their order.
pub open spec fn del<K, V>(s: Seq<(K, V)>, k: K) -> Seq<(K, V)> {
    if has_key(s, k) {
        s.remove(index_of(s, k))
    } else {
        s
    }
}

/// `s` without the entries whose key belongs to network `n`; the other
/// entries keep their order.
pub open spec fn drop_net<K: Scope, V>(s: Seq<(K, V)>, n: u16) -> Seq<(K, V)>
    decreases s.len(),
{
    if s.len() == 0 {
        s
    } else if s.last().0.net() == n {
        drop_net(s.drop_last(), n)
    } else {
        drop_net(s.drop_last(), n).push(s.last())
    }
}

/// With distinct keys, the entry at `i` is the one that its key finds.
pub proof fn lemma_index_of<K, V>(s: Seq<(K, V)>, i: int)
    requires
        distinct_keys(s),
        0 <= i < s.len(),
    ensures
        has_key(s, s[i].0),
        index_of(s, s[i].0) == i,
        value_of(s, s[i].0) == s[i].1,
{
    let k = s[i].0;
    let j = index_of(s, k);
    assert(0 <= j < s.len() && s[j].0 == k);
    if j < i {
        assert(s[j].0 != s[i].0);
    } else if i < j {
        assert(s[i].0 != s[j].0);
    }
}

/// What a lookup finds after a write.
pub proof fn lemma_put<K, V>(s: Seq<(K, V)>, k: K, v: V, q: K)
    requires
        distinct_keys(s),
    ensures
        distinct_keys(put(s, k, v)),
        has_key(put(s, k, v), q) == (q == k || has_key(s, q)),
        q == k ==> value_of(put(s, k, v), q) == v,
        q != k && has_key(s, q) ==> value_of(put(s, k, v), q) == value_of(s, q),
        put(s, k, v).len() == s.len() + if has_key(s, k) { 0int } else { 1int },
{
    let t = put(s, k, v);
    if has_key(s, k) {
        let p = index_of(s, k);
        assert(0 <= p < s.len() && s[p].0 == k);
        assert forall|i: int, j: int| 0 <= i < j < t.len() implies (#[trigger] t[i]).0 != (
        #[trigger] t[j]).0 by {
            assert(t[i].0 == s[i].0 && t[j].0 == s[j].0);
        }
        assert(t[p].0 == k);
        lemma_index_of(t, p);
        if q != k {
            if has_key(s, q) {
                let r = index_of(s, q);
                assert(0 <= r < s.len() && s[r].0 == q);
                assert(t[r] == s[r]);
                lemma_index_of(t, r);
            }
            if has_key(t, q) {
                let r = index_of(t, q);
                assert(0 <= r < t.len() && t[r].0 == q);
                assert(s[r] == t[r]);
            }
        }
    } else {
        assert forall|i: int, j: int| 0 <= i < j < t.len() implies (#[trigger] t[i]).0 != (
        #[trigger] t[j]).0 by {
            if j == s.len() {
                assert(s[i].0 != k);
                assert(t[i] == s[i]);
            } else {
                assert(t[i] == s[i] && t[j] == s[j]);
            }
        }
        let p = s.len() as int;
        assert(t[p].0 == k);
        lemma_index_of(t, p);
        if q != k {
            if has_key(s, q) {
                let r = index_of(s, q);
                assert(0 <= r < s.len() && s[r].0 == q);
                assert(t[r] == s[r]);
                lemma_index_of(t, r);
            }
            if has_key(t, q) {
                let r = index_of(t, q);
                assert(0 <= r < t.len() && t[r].0 == q);
                assert(r < s.len());
                assert(s[r] == t[r]);
            }
        }
    }
}

/// What a lookup finds after a removal.
pub proof fn lemma_del<K, V>(s: Seq<(K, V)>, k: K, q: K)
    requires
        distinct_keys(s),
    ensures
        distinct_keys(del(s, k)),
        has_key(del(s, k), q) == (q != k && has_key(s, q)),
        q != k && has_key(s, q) ==> value_of(del(s, k), q) == value_of(s, q),
        del(s, k).len() == s.len() - if has_key(s, k) { 1int } else { 0int },
{
    let t = del(s, k);
    if has_key(s, k) {
        let p = index_of(s, k);
        assert(0 <= p < s.len() && s[p].0 == k);
        assert forall|i: int| 0 <= i < t.len() implies #[trigger] t[i] == s[if i < p {
            i
        } else {
            i + 1
        }] by {}
        assert forall|i: int, j: int| 0 <= i < j < t.len() implies (#[trigger] t[i]).0 != (
        #[trigger] t[j]).0 by {
            let a = if i < p { i } else { i + 1 };
            let b = if j < p { j } else { j + 1 };
            assert(t[i] == s[a] && t[j] == s[b]);
            assert(s[a].0 != s[b].0);
        }
        if has_key(t, q) {
            let r = index_of(t, q);
            assert(0 <= r < t.len() && t[r].0 == q);
            let a = if r < p { r } else { r + 1 };
            assert(t[r] == s[a]);
            assert(s[a].0 == q);
            if q == k {
                lemma_index_of(s, a);
            } else {
                lemma_index_of(s, a);
                lemma_index_of(t, r);
            }
        }
        if q != k && has_key(s, q) {
            let a = index_of(s, q);
            assert(0 <= a < s.len() && s[a].0 == q);
            let r = if a < p { a } else { a - 1 };
            assert(t[r] == s[a]);
            lemma_index_of(t, r);
        }
    }
}

/// Every entry that `drop_net` keeps is an entry of `s` outside network `n`,
/// and every such entry is kept.
pub proof fn lemma_drop_net<K: Scope, V>(s: Seq<(K, V)>, n: u16, q: K)
    requires
        distinct_keys(s),
    ensures
        distinct_keys(drop_net(s, n)),
        has_key(drop_net(s, n), q) == (q.net() != n && has_key(s, q)),
        q.net() != n && has_key(s, q) ==> value_of(drop_net(s, n), q) == value_of(s, q),
        drop_net(s, n).len() <= s.len(),
    decreases s.len(),
{
    if s.len() > 0 {
        let r = s.drop_last();
        let e = s.last();
        let d = drop_net(r, n);
        assert(distinct_keys(r)) by {
            assert forall|i: int, j: int| 0 <= i < j < r.len() implies (#[trigger] r[i]).0 != (
            #[trigger] r[j]).0 by {
                assert(r[i] == s[i] && r[j] == s[j]);
            }
        }
        lemma_drop_net(r, n, q);
        lemma_drop_net(r, n, e.0);
        assert(!has_key(r, e.0)) by {
            if has_key(r, e.0) {
                let a = index_of(r, e.0);
                assert(0 <= a < r.len() && r[a].0 == e.0);
                assert(s[a] == r[a]);
                assert(s[a].0 != s[s.len() - 1].0);
            }
        }
        assert(has_key(s, q) == (q == e.0 || has_key(r, q))) by {
            if has_key(s, q) {
                let a = index_of(s, q);
                assert(0 <= a < s.len() && s[a].0 == q);
                if a < r.len() {
                    assert(r[a] == s[a]);
                }
            }
            if has_key(r, q) {
                let a = index_of(r, q);
                assert(0 <= a < r.len() && r[a].0 == q);
                assert(s[a] == r[a]);
            }
            if q == e.0 {
                assert(s[s.len() - 1].0 == q);
            }
        }
        if q != e.0 && has_key(r, q) {
            let a = index_of(r, q);
            assert(0 <= a < r.len() && r[a].0 == q);
            assert(s[a] == r[a]);
            lemma_index_of(s, a);
            lemma_index_of(r, a);
        }
        if q == e.0 {
            lemma_index_of(s, s.len() - 1);
        }
        if e.0.net() != n {
            lemma_put(d, e.0, e.1, q);
            assert(put(d, e.0, e.1) == drop_net(s, n));
        }
    }
}

/// Dropping a network's entries leaves the keys distinct.
pub proof fn lemma_drop_net_distinct<K: Scope, V>(s: Seq<(K, V)>, n: u16)
    requires
        distinct_keys(s),
    ensures
        distinct_keys(drop_net(s, n)),
{
    if s.len() > 0 {
        lemma_drop_net(s, n, s[0].0);
    }
}

/// A store whose keys all occur among the values of another store has at
/// most as many entries as that one.
pub proof fn lemma_keys_among_values<K, V, W>(a: Seq<(V, W)>, b: Seq<(K, V)>)
    requires
        distinct_keys(a),
        forall|i: int| 0 <= i < a.len() ==> has_value(b, (#[trigger] a[i]).0),
    ensures
        a.len() <= b.len(),
    decreases b.len(),
{
    if b.len() == 0 {
        if a.len() > 0 {
            assert(has_value(b, a[0].0));
        }
    } else {
        let n = b.last().1;
        let a2 = del(a, n);
        let b2 = b.drop_last();
        lemma_del(a, n, n);
        assert forall|i: int| 0 <= i < a2.len() implies has_value(b2, (#[trigger] a2[i]).0) by {
            let k = a2[i].0;
            lemma_index_of(a2, i);
            lemma_del(a, n, k);
            let j = index_of(a, k);
            assert(0 <= j < a.len() && a[j].0 == k);
            assert(has_value(b, a[j].0));
            let m = choose|m: int| 0 <= m < b.len() && (#[trigger] b[m]).1 == k;
            assert(b2[m] == b[m]);
        }
        lemma_keys_among_values(a2, b2);
    }
}

/// A store of values under keys. Its view is the sequence of its entries.
pub struct Store<K: Key, V: View> {
    entries: Vec<(K, V)>,
}

impl<K: Key, V: View> View for Store<K, V> {
    type V = Seq<(K::V, V::V)>;

    closed spec fn view(&self) -> Seq<(K::V, V::V)> {
        Seq::new(self.entries@.len(), |i: int| (self.entries@[i].0@, self.entries@[i].1@))
    }
}

impl<K: Key, V: View> Store<K, V> {
    /// No key is stored twice.
    pub open spec fn wf(&self) -> bool {
        distinct_keys(self@)
    }

    /// A store without entries.
    pub fn new() -> (s: Self)
        ensures
            s@ == Seq::<(K::V, V::V)>::empty(),
            s.wf(),
    {
        let s = Store { entries: Vec::new() };
        assert(s@ =~= Seq::<(K::V, V::V)>::empty());
        s
    }

    /// The number of entries.
    pub fn len(&self) -> (n: usize)
        ensures
            n == self@.len(),
    {
        self.entries.len()
    }

    /// The key of the entry at position `i`.
    pub fn key_at(&self, i: usize) -> (k: &K)
        requires
            i < self@.len(),
        ensures
            k@ == self@[i as int].0,
    {
        &self.entries[i].0
    }

    /// The value of the entry at position `i`.
    pub fn value_at(&self, i: usize) -> (v: &V)
        requires
            i < self@.len(),
        ensures
            v@ == self@[i as int].1,
    {
        &self.entries[i].1
    }

    /// The position of the entry under `k`, if there is one.
    fn position(&self, k: &K) -> (r: Option<usize>)
        requires
            self.wf(),
        ensures
            match r {
                Some(i) => i < self@.len() && self@[i as int].0 == k@ && index_of(self@, k@) == i
                    && has_key(self@, k@),
                None => !has_key(self@, k@),
            },
    {
        let mut i: usize = 0;
        while i < self.entries.len()
            invariant
                i <= self.entries@.len(),
                self.wf(),
                forall|j: int| 0 <= j < i ==> (#[trigger] self@[j]).0 != k@,
            decreases self.entries@.len() - i,
        {
            if self.entries[i].0.same(k) {
                proof {
                    lemma_index_of(self@, i as int);
                }
                return Some(i);
            }
            i += 1;
        }
        None
    }

    /// Whether a value is stored under `k`.
    pub fn contains_key(&self, k: &K) -> (b: bool)
        requires
            self.wf(),
        ensures
            b == has_key(self@, k@),
    {
        self.position(k).is_some()
    }

    /// The value stored under `k`, if there is one.
    pub fn get(&self, k: &K) -> (r: Option<&V>)
        requires
            self.wf(),
        ensures
            match r {
                Some(v) => has_key(self@, k@) && v@ == value_of(self@, k@),
                None => !has_key(self@, k@),
            },
    {
        match self.position(k) {
            Some(i) => Some(&self.entries[i].1),
            None => None,
        }
    }

    /// Stores `v` under `k`: in place of the value that was there, or as a
    /// new last entry.
    pub fn insert(&mut self, k: K, v: V)
        requires
            old(self).wf(),
        ensures
            final(self).wf(),
            final(self)@ == put(old(self)@, k@, v@),
    {
        proof {
            lemma_put(self@, k@, v@, k@);
        }
        match self.position(&k) {
            Some(i) => {
                self.entries[i] = (k, v);
                assert(self@ =~= old(self)@.update(i as int, (k@, v@)));
            },
            None => {
                self.entries.push((k, v));
                assert(self@ =~= old(self)@.push((k@, v@)));
            },
        }
    }

    /// Removes the entry under `k`, if there is one.
    pub fn remove(&mut self, k: &K)
        requires
            old(self).wf(),
        ensures
            final(self).wf(),
            final(self)@ == del(old(self)@, k@),
    {
        proof {
            lemma_del(self@, k@, k@);
        }
        match self.position(k) {
            Some(i) => {
                self.entries.remove(i);
                assert(self@ =~= old(self)@.remove(i as int));
            },
            None => {},
        }
    }
}

impl<K: NetKey, V: View> Store<K, V> where K::V: Scope {
    /// Removes every entry whose key belongs to network `n`.
    pub fn clear_network(&mut self, n: u16)
        requires
            old(self).wf(),
        ensures
            final(self).wf(),
            final(self)@ == drop_net(old(self)@, n),
    {
        let ghost before = self@;
        let ghost mut seen: int = 0;
        let mut i: usize = 0;
        while i < self.entries.len()
            invariant
                0 <= seen <= before.len(),
                i <= self.entries@.len(),
                self@.len() - i == before.len() - seen,
                self@.take(i as int) == drop_net(before.take(seen), n),
                self@.skip(i as int) == before.skip(seen),
            decreases self.entries@.len() - i,
        {
            proof {
                assert(self@[i as int] == self@.skip(i as int)[0]);
                assert(before[seen] == before.skip(seen)[0]);
                assert(before.take(seen + 1).drop_last() =~= before.take(seen));
                assert(before.take(seen + 1).last() == before[seen]);
            }
            if self.entries[i].0.network() == n {
                let ghost prev = self@;
                self.entries.remove(i);
                proof {
                    assert(self@ =~= prev.remove(i as int));
                    assert(self@.take(i as int) =~= prev.take(i as int));
                    assert(self@.skip(i as int) =~= prev.skip(i as int).skip(1));
                    assert(before.skip(seen + 1) =~= before.skip(seen).skip(1));
                    seen = seen + 1;
                }
            } else {
                proof {
                    assert(self@.take(i as int + 1) =~= self@.take(i as int).push(self@[i as int]));
                    assert(self@.skip(i as int + 1) =~= self@.skip(i as int).skip(1));
                    assert(before.skip(seen + 1) =~= before.skip(seen).skip(1));
                    seen = seen + 1;
                }
                i += 1;
            }
        }
        proof {
            assert(before.take(seen) =~= before);
            assert(self@.take(i as int) =~= self@);
            lemma_drop_net_distinct(before, n);
        }
    }
}

} // verus!
