//! A map keyed by 64-bit ids that is walked in ascending order of id.
use vstd::prelude::*;

verus! {

/// Strictly ascending, so without duplicates.
pub open spec fn ascending(s: Seq<u64>) -> bool {
    forall|i: int, j: int| 0 <= i < j < s.len() ==> s[i] < s[j]
}

/// The ids of a set in ascending order.
pub open spec fn sorted_ids(ids: Set<u64>) -> Seq<u64> {
    choose|s: Seq<u64>| ascending(s) && s.to_set() == ids
}

/// A set is listed in ascending order in one way only.
pub proof fn lemma_ascending_unique(a: Seq<u64>, b: Seq<u64>)
    requires
        ascending(a),
        ascending(b),
        a.to_set() == b.to_set(),
    ensures
        a == b,
    decreases a.len(),
{
    if a.len() == 0 {
        if b.len() > 0 {
            assert(b.to_set().contains(b[0]));
            assert(a.contains(b[0]));
        }
        assert(a =~= b);
    } else {
        assert(a.to_set().contains(a.last()));
        assert(b.contains(a.last()));
        assert(b.to_set().contains(b.last()));
        assert(a.contains(b.last()));
        let (i, j) = (a.index_of(b.last()), b.index_of(a.last()));
        assert(a[i] == b.last() && b[j] == a.last());
        assert(a.last() == b.last());
        let (x, y) = (a.drop_last(), b.drop_last());
        assert forall|k: u64| x.to_set().contains(k) == y.to_set().contains(k) by {
            if x.contains(k) {
                let p = x.index_of(k);
                assert(a[p] == k);
                assert(a.to_set().contains(k));
                let q = b.index_of(k);
                assert(b[q] == k);
                assert(y[q] == k);
            }
            if y.contains(k) {
                let p = y.index_of(k);
                assert(b[p] == k);
                assert(b.to_set().contains(k));
                let q = a.index_of(k);
                assert(a[q] == k);
                assert(x[q] == k);
            }
        }
        assert(x.to_set() =~= y.to_set());
        lemma_ascending_unique(x, y);
        assert(a =~= x.push(a.last()));
        assert(b =~= y.push(b.last()));
    }
}

/// An ascending listing of a set is the sorted one.
pub proof fn lemma_sorted_ids(s: Seq<u64>)
    requires
        ascending(s),
    ensures
        sorted_ids(s.to_set()) == s,
{
    let t = sorted_ids(s.to_set());
    assert(ascending(s) && s.to_set() == s.to_set());
    lemma_ascending_unique(t, s);
}

/// Every finite set can be listed in ascending order.
pub proof fn lemma_sorted_exists(ids: Set<u64>)
    requires
        ids.finite(),
    ensures
        ascending(sorted_ids(ids)),
        sorted_ids(ids).to_set() == ids,
    decreases ids.len(),
{
    if ids.len() == 0 {
        assert(Seq::<u64>::empty().to_set() =~= ids);
        assert(ascending(Seq::<u64>::empty()));
    } else {
        let x = ids.choose();
        let rest = ids.remove(x);
        lemma_sorted_exists(rest);
        let s = sorted_ids(rest);
        let k = lemma_split(s, x);
        let t = s.insert(k, x);
        assert(!rest.contains(x));
        assert(s.to_set().contains(x) == s.contains(x));
        assert(ascending(t)) by {
            assert forall|i: int, j: int| 0 <= i < j < t.len() implies t[i] < t[j] by {
                if j == k || i == k {
                    let q = if j == k { i } else { j - 1 };
                    assert(s.contains(s[q]));
                }
            }
        }
        assert forall|y: u64| t.to_set().contains(y) == ids.contains(y) by {
            if t.contains(y) {
                let p = t.index_of(y);
                if p != k {
                    let q = if p < k { p } else { p - 1 };
                    assert(s[q] == y);
                    assert(s.to_set().contains(y));
                }
            }
            if ids.contains(y) {
                if y == x {
                    assert(t[k] == y);
                } else {
                    assert(rest.contains(y));
                    assert(s.to_set().contains(y));
                    let q = s.index_of(y);
                    let p = if q < k { q } else { q + 1 };
                    assert(t[p] == y);
                }
            }
        }
        assert(t.to_set() =~= ids);
        lemma_sorted_ids(t);
    }
}

/// Where `x` belongs in an ascending listing.
proof fn lemma_split(s: Seq<u64>, x: u64) -> (k: int)
    requires
        ascending(s),
    ensures
        0 <= k <= s.len(),
        forall|i: int| 0 <= i < k ==> s[i] < x,
        forall|i: int| k <= i < s.len() ==> s[i] >= x,
    decreases s.len(),
{
    if s.len() == 0 {
        0
    } else if s.last() < x {
        s.len() as int
    } else {
        let k = lemma_split(s.drop_last(), x);
        assert forall|i: int| 0 <= i < k implies s[i] < x by {
            assert(s.drop_last()[i] < x);
        }
        assert forall|i: int| k <= i < s.len() implies s[i] >= x by {
            if i < s.len() - 1 {
                assert(s.drop_last()[i] >= x);
            }
        }
        k
    }
}

pub struct IdMap<V> {
    keys: Vec<u64>,
    vals: Vec<V>,
}

impl<V> View for IdMap<V> {
    type V = Map<u64, V>;

    closed spec fn view(&self) -> Map<u64, V> {
        Map::new(
            |k: u64| self.keys@.contains(k),
            |k: u64| self.vals@[self.keys@.index_of(k)],
        )
    }
}

impl<V> IdMap<V> {
    pub closed spec fn wf(&self) -> bool {
        self.keys@.len() == self.vals@.len() && ascending(self.keys@)
    }

    /// The keys in ascending order.
    pub closed spec fn ids(&self) -> Seq<u64> {
        self.keys@
    }

    /// What `ids` and the view say of each other.
    pub proof fn lemma_ids(&self)
        requires
            self.wf(),
        ensures
            ascending(self.ids()),
            self.ids() == sorted_ids(self@.dom()),
            self.ids().to_set() == self@.dom(),
            self@.dom().finite(),
            self@.dom().len() == self.ids().len(),
            forall|k: u64| self.ids().contains(k) <==> #[trigger] self@.dom().contains(k),
            forall|i: int| 0 <= i < self.ids().len() ==> self@.dom().contains(#[trigger] self.ids()[i]),
    {
        assert(self@.dom() =~= self.keys@.to_set());
        lemma_sorted_ids(self.keys@);
        assert(self.keys@.no_duplicates());
        self.keys@.unique_seq_to_set();
    }

    proof fn lemma_at(&self, i: int)
        requires
            self.wf(),
            0 <= i < self.keys@.len(),
        ensures
            self@.dom().contains(self.keys@[i]),
            self@[self.keys@[i]] == self.vals@[i],
    {
        assert(self.keys@.contains(self.keys@[i]));
        let j = self.keys@.index_of(self.keys@[i]);
        assert(self.keys@[j] == self.keys@[i]);
        assert(i == j);
    }

    pub fn new() -> (r: Self)
        ensures
            r.wf(),
            r@ == Map::<u64, V>::empty(),
    {
        let r = IdMap { keys: Vec::new(), vals: Vec::new() };
        assert(r@ =~= Map::<u64, V>::empty());
        r
    }

    pub fn len(&self) -> (r: usize)
        requires
            self.wf(),
        ensures
            r == self@.dom().len(),
            r == self.ids().len(),
    {
        proof {
            self.lemma_ids();
        }
        self.keys.len()
    }

    /// The key at position `i` of the ascending order.
    pub fn key_at(&self, i: usize) -> (r: u64)
        requires
            self.wf(),
            i < self.ids().len(),
        ensures
            r == self.ids()[i as int],
            self@.dom().contains(r),
    {
        proof {
            self.lemma_at(i as int);
        }
        self.keys[i]
    }

    /// The value at position `i` of the ascending order.
    pub fn at(&self, i: usize) -> (r: &V)
        requires
            self.wf(),
            i < self.ids().len(),
        ensures
            self@.dom().contains(self.ids()[i as int]),
            *r == self@[self.ids()[i as int]],
    {
        proof {
            self.lemma_at(i as int);
        }
        &self.vals[i]
    }

    /// The values in ascending order of their keys.
    pub fn values(&self) -> (r: &[V])
        requires
            self.wf(),
        ensures
            r@.len() == self.ids().len(),
            forall|i: int| 0 <= i < r@.len() ==> #[trigger] r@[i] == self@[self.ids()[i]],
    {
        proof {
            assert forall|i: int| 0 <= i < self.vals@.len() implies #[trigger] self.vals@[i]
                == self@[self.ids()[i]] by {
                self.lemma_at(i);
            }
        }
        self.vals.as_slice()
    }

    /// The first position whose key is not below `key`.
    fn lower_bound(&self, key: u64) -> (r: usize)
        requires
            self.wf(),
        ensures
            r <= self.keys@.len(),
            forall|i: int| 0 <= i < r ==> self.keys@[i] < key,
            forall|i: int| r <= i < self.keys@.len() ==> self.keys@[i] >= key,
    {
        let mut i: usize = 0;
        while i < self.keys.len() && self.keys[i] < key
            invariant
                self.wf(),
                i <= self.keys@.len(),
                forall|j: int| 0 <= j < i ==> self.keys@[j] < key,
            decreases self.keys@.len() - i,
        {
            i += 1;
        }
        i
    }

    /// The position of `key`, if it is there.
    fn find(&self, key: u64) -> (r: Option<usize>)
        requires
            self.wf(),
        ensures
            r is Some <==> self@.dom().contains(key),
            r matches Some(i) ==> i < self.keys@.len() && self.keys@[i as int] == key
                && self.vals@[i as int] == self@[key],
    {
        let i: usize = self.lower_bound(key);
        if i < self.keys.len() && self.keys[i] == key {
            proof {
                self.lemma_at(i as int);
            }
            Some(i)
        } else {
            None
        }
    }

    pub fn contains_key(&self, key: u64) -> (r: bool)
        requires
            self.wf(),
        ensures
            r == self@.dom().contains(key),
    {
        self.find(key).is_some()
    }

    pub fn get(&self, key: u64) -> (r: Option<&V>)
        requires
            self.wf(),
        ensures
            r is Some <==> self@.dom().contains(key),
            r matches Some(v) ==> *v == self@[key],
    {
        match self.find(key) {
            Some(i) => Some(&self.vals[i]),
            None => None,
        }
    }

    pub fn get_mut(&mut self, key: u64) -> (r: Option<&mut V>)
        requires
            old(self).wf(),
        ensures
            final(self).wf(),
            r is Some <==> old(self)@.dom().contains(key),
            r matches Some(v) ==> *v == old(self)@[key] && final(self)@ == old(self)@.insert(
                key,
                *final(v),
            ),
            r is None ==> final(self)@ == old(self)@,
    {
        match self.find(key) {
            Some(i) => Some(&mut self.vals[i]),
            None => None,
        }
    }

    /// Bind `key` to `value`, replacing what it was bound to.
    pub fn insert(&mut self, key: u64, value: V)
        requires
            old(self).wf(),
        ensures
            final(self).wf(),
            final(self)@ == old(self)@.insert(key, value),
    {
        let i: usize = self.lower_bound(key);
        let ghost before = *self;
        if i < self.keys.len() && self.keys[i] == key {
            self.vals[i] = value;
        } else {
            self.keys.insert(i, key);
            self.vals.insert(i, value);
        }
        proof {
            let want = before@.insert(key, value);
            self.lemma_at(i as int);
            assert forall|k: u64| self@.dom().contains(k) == want.dom().contains(k) by {
                if self.keys@.contains(k) {
                    let p = self.keys@.index_of(k);
                    let q = if before.keys@.len() == self.keys@.len() || p <= i { p } else { p - 1 };
                    assert(k == key || before.keys@[q] == k);
                }
                if before.keys@.contains(k) {
                    let p = before.keys@.index_of(k);
                    let q = if before.keys@.len() == self.keys@.len() || p < i { p } else { p + 1 };
                    assert(self.keys@[q] == k);
                }
            }
            assert forall|k: u64| self@.dom().contains(k) implies self@[k] == want[k] by {
                let p = self.keys@.index_of(k);
                if k != key {
                    let q = if before.keys@.len() == self.keys@.len() || p < i { p } else { p - 1 };
                    before.lemma_at(q);
                }
            }
            assert(self@ =~= want);
        }
    }

    pub fn remove(&mut self, key: u64) -> (r: Option<V>)
        requires
            old(self).wf(),
        ensures
            final(self).wf(),
            r is Some <==> old(self)@.dom().contains(key),
            r matches Some(v) ==> v == old(self)@[key],
            final(self)@ == old(self)@.remove(key),
    {
        match self.find(key) {
            Some(i) => {
                let ghost before = *self;
                self.keys.remove(i);
                let v = self.vals.remove(i);
                proof {
                    let want = before@.remove(key);
                    assert forall|k: u64| self@.dom().contains(k) == want.dom().contains(k) by {
                        if self.keys@.contains(k) {
                            let p = self.keys@.index_of(k);
                            let q = if p < i { p } else { p + 1 };
                            assert(before.keys@[q] == k);
                        }
                        if before.keys@.contains(k) && k != key {
                            let p = before.keys@.index_of(k);
                            let q = if p < i { p } else { p - 1 };
                            assert(self.keys@[q] == k);
                        }
                    }
                    assert forall|k: u64| self@.dom().contains(k) implies self@[k] == want[k] by {
                        let p = self.keys@.index_of(k);
                        let q = if p < i { p } else { p + 1 };
                        before.lemma_at(q);
                    }
                    assert(self@ =~= want);
                }
                Some(v)
            },
            None => {
                assert(self@.remove(key) =~= self@);
                None
            },
        }
    }
}

} // verus!
