//! The store: a mapping from item names to quantities, kept as a vector of
//! entries with pairwise-distinct names.  Its mathematical view is a
//! `Map<Seq<u8>, int>`.

use vstd::prelude::*;

verus! {

/// One inventory entry: a name (a byte string, the key) and a quantity.
pub struct Entry {
    pub name: Vec<u8>,
    pub quantity: i32,
}

/// The pair of plain values an entry stands for.
pub open spec fn pair_of(e: Entry) -> (Seq<u8>, int) {
    (e.name@, e.quantity as int)
}

/// The map described by a sequence of (name, quantity) pairs; a later pair
/// overrides an earlier one with the same name.
pub open spec fn map_of(s: Seq<(Seq<u8>, int)>) -> Map<Seq<u8>, int>
    decreases s.len(),
{
    if s.len() == 0 {
        Map::empty()
    } else {
        map_of(s.drop_last()).insert(s.last().0, s.last().1)
    }
}

/// Pairwise-distinct keys: the uniqueness invariant of the store.
pub open spec fn distinct_keys(v: Seq<(Seq<u8>, int)>) -> bool {
    forall|i: int, j: int| 0 <= i < j < v.len() ==> #[trigger] v[i].0 != #[trigger] v[j].0
}

/// The pairs after an upsert of `(name, q)`: the pair at `name`'s index is
/// overwritten when the key is present, and a new pair is appended when it
/// is not.
pub open spec fn upserted(v: Seq<(Seq<u8>, int)>, name: Seq<u8>, q: int) -> Seq<(Seq<u8>, int)> {
    if map_of(v).dom().contains(name) {
        v.update(index_of_key(v, name), (name, q))
    } else {
        v.push((name, q))
    }
}

/// The inventory: entries with pairwise-distinct names.
pub struct Store {
    pub entries: Vec<Entry>,
}

impl Store {
    /// The entries as plain (name, quantity) pairs, in their stored order.
    pub open spec fn entries_view(self) -> Seq<(Seq<u8>, int)> {
        self.entries@.map_values(|e: Entry| pair_of(e))
    }

    /// The mapping this store holds.
    pub open spec fn view(self) -> Map<Seq<u8>, int> {
        map_of(self.entries_view())
    }

    /// Names are pairwise distinct.
    pub open spec fn wf(self) -> bool {
        distinct_keys(self.entries_view())
    }

    /// Creates an empty store.
    pub fn new() -> (s: Store)
        ensures
            s.wf(),
            s@ == Map::<Seq<u8>, int>::empty(),
            s.entries_view() == Seq::<(Seq<u8>, int)>::empty(),
    {
        let s = Store { entries: Vec::new() };
        proof {
            assert(s.entries_view() =~= Seq::<(Seq<u8>, int)>::empty());
        }
        s
    }

    /// Inserts a new entry, or overwrites the quantity of the entry that
    /// already carries `name`.  Always succeeds.
    pub fn upsert(&mut self, name: Vec<u8>, quantity: i32)
        requires
            old(self).wf(),
        ensures
            final(self).wf(),
            final(self)@ == old(self)@.insert(name@, quantity as int),
            final(self).entries_view() == upserted(
                old(self).entries_view(),
                name@,
                quantity as int,
            ),
    {
        let ghost orig = self.entries_view();
        let n = self.entries.len();
        let mut i: usize = 0;
        while i < n
            invariant
                n == self.entries.len(),
                i <= n,
                *self == *old(self),
                old(self).wf(),
                orig == self.entries_view(),
                orig.len() == n,
                forall|j: int| 0 <= j < i ==> #[trigger] orig[j].0 != name@,
            decreases n - i,
        {
            if bytes_eq(&self.entries[i].name, &name) {
                proof {
                    lemma_index_of_key_found(orig, name@, i as int);
                    lemma_present_key(orig, name@, i as int);
                    lemma_map_of_update(orig, i as int, name@, quantity as int);
                }
                let e = Entry { name, quantity };
                self.entries.remove(i);
                self.entries.insert(i, e);
                proof {
                    assert(self.entries_view() =~= orig.update(i as int, (name@, quantity as int)));
                    lemma_wf_update(orig, i as int, name@, quantity as int);
                }
                return ;
            }
            i += 1;
        }
        proof {
            lemma_absent_key(orig, name@);
        }
        self.entries.push(Entry { name, quantity });
        proof {
            assert(self.entries_view() =~= orig.push((name@, quantity as int)));
            assert(self.entries_view().drop_last() =~= orig);
        }
    }

    /// Returns an independent copy of the store: same entries, same order.
    pub fn snapshot(&self) -> (s: Store)
        ensures
            s.entries_view() == self.entries_view(),
            s@ == self@,
            self.wf() ==> s.wf(),
    {
        let mut out: Vec<Entry> = Vec::new();
        let n = self.entries.len();
        let mut i: usize = 0;
        while i < n
            invariant
                n == self.entries.len(),
                i <= n,
                out@.len() == i,
                forall|j: int|
                    0 <= j < i ==> #[trigger] pair_of(out@[j]) == pair_of(self.entries@[j]),
            decreases n - i,
        {
            let name = copy_bytes(&self.entries[i].name);
            let quantity = self.entries[i].quantity;
            out.push(Entry { name, quantity });
            i += 1;
        }
        let s = Store { entries: out };
        proof {
            assert(s.entries_view() =~= self.entries_view());
        }
        s
    }
}

/// Compares two byte strings for equality.
pub fn bytes_eq(a: &Vec<u8>, b: &Vec<u8>) -> (r: bool)
    ensures
        r == (a@ == b@),
{
    if a.len() != b.len() {
        proof {
            assert(a@.len() != b@.len());
        }
        return false;
    }
    let n = a.len();
    let mut i: usize = 0;
    while i < n
        invariant
            n == a.len() == b.len(),
            i <= n,
            forall|j: int| 0 <= j < i ==> a@[j] == b@[j],
        decreases n - i,
    {
        if a[i] != b[i] {
            return false;
        }
        i += 1;
    }
    proof {
        assert(a@ =~= b@);
    }
    true
}

/// Copies a byte string.
pub fn copy_bytes(a: &Vec<u8>) -> (r: Vec<u8>)
    ensures
        r@ == a@,
{
    let mut out: Vec<u8> = Vec::new();
    let n = a.len();
    let mut i: usize = 0;
    while i < n
        invariant
            n == a.len(),
            i <= n,
            out@ =~= a@.take(i as int),
        decreases n - i,
    {
        out.push(a[i]);
        i += 1;
    }
    proof {
        assert(out@ =~= a@);
    }
    out
}

/// The index of the (unique, if names are pairwise distinct) pair carrying
/// key `k`, or `-1` when no pair does.
pub open spec fn index_of_key(s: Seq<(Seq<u8>, int)>, k: Seq<u8>) -> int
    decreases s.len(),
{
    if s.len() == 0 {
        -1
    } else if s[0].0 == k {
        0
    } else {
        let r = index_of_key(s.drop_first(), k);
        if r == -1 {
            -1
        } else {
            r + 1
        }
    }
}

proof fn lemma_index_of_key_found(s: Seq<(Seq<u8>, int)>, k: Seq<u8>, i: int)
    requires
        0 <= i < s.len(),
        s[i].0 == k,
        forall|j: int| 0 <= j < i ==> #[trigger] s[j].0 != k,
    ensures
        index_of_key(s, k) == i,
    decreases s.len(),
{
    if i > 0 {
        lemma_index_of_key_found(s.drop_first(), k, i - 1);
    }
}

/// A key that occurs in no pair is outside the described map's domain.
proof fn lemma_absent_key(s: Seq<(Seq<u8>, int)>, k: Seq<u8>)
    requires
        forall|j: int| 0 <= j < s.len() ==> #[trigger] s[j].0 != k,
    ensures
        !map_of(s).dom().contains(k),
    decreases s.len(),
{
    if s.len() > 0 {
        lemma_absent_key(s.drop_last(), k);
    }
}

/// A key that occurs in some pair is in the described map's domain.
proof fn lemma_present_key(s: Seq<(Seq<u8>, int)>, k: Seq<u8>, i: int)
    requires
        0 <= i < s.len(),
        s[i].0 == k,
    ensures
        map_of(s).dom().contains(k),
    decreases s.len(),
{
    if i < s.len() - 1 {
        lemma_present_key(s.drop_last(), k, i);
    }
}

/// Every key of the described map occurs in some pair.
proof fn lemma_dom_has_index(s: Seq<(Seq<u8>, int)>, k: Seq<u8>)
    requires
        map_of(s).dom().contains(k),
    ensures
        exists|j: int| 0 <= j < s.len() && #[trigger] s[j].0 == k,
    decreases s.len(),
{
    if s.len() > 0 && s.last().0 != k {
        lemma_dom_has_index(s.drop_last(), k);
    }
}

/// Overwriting the pair at the key's own index describes the same map as
/// inserting that key, provided names are pairwise distinct.
proof fn lemma_map_of_update(s: Seq<(Seq<u8>, int)>, i: int, k: Seq<u8>, q: int)
    requires
        0 <= i < s.len(),
        s[i].0 == k,
        forall|a: int, b: int| 0 <= a < b < s.len() ==> #[trigger] s[a].0 != #[trigger] s[b].0,
    ensures
        map_of(s.update(i, (k, q))) == map_of(s).insert(k, q),
    decreases s.len(),
{
    let t = s.update(i, (k, q));
    if i == s.len() - 1 {
        assert(t.drop_last() =~= s.drop_last());
        assert(map_of(t) =~= map_of(s).insert(k, q));
    } else {
        assert(t.drop_last() =~= s.drop_last().update(i, (k, q)));
        lemma_map_of_update(s.drop_last(), i, k, q);
        assert(s.last().0 != k);
        assert(map_of(t) == map_of(s.drop_last()).insert(k, q).insert(s.last().0, s.last().1));
        assert(map_of(s.drop_last()).insert(k, q).insert(s.last().0, s.last().1) =~= map_of(
            s.drop_last(),
        ).insert(s.last().0, s.last().1).insert(k, q));
    }
}

/// An upsert changes the described map by one insert, keeps the keys
/// pairwise distinct, and leaves a pair `(name, q)` at some index.
pub proof fn lemma_upserted_map(v: Seq<(Seq<u8>, int)>, name: Seq<u8>, q: int)
    requires
        distinct_keys(v),
    ensures
        map_of(upserted(v, name, q)) == map_of(v).insert(name, q),
        distinct_keys(upserted(v, name, q)),
        exists|i: int|
            0 <= i < upserted(v, name, q).len() && #[trigger] upserted(v, name, q)[i] == (name, q),
{
    let w = upserted(v, name, q);
    if map_of(v).dom().contains(name) {
        lemma_dom_has_index(v, name);
        let j = choose|j: int| 0 <= j < v.len() && #[trigger] v[j].0 == name;
        assert(forall|t: int| 0 <= t < j ==> #[trigger] v[t].0 != name);
        lemma_index_of_key_found(v, name, j);
        lemma_map_of_update(v, j, name, q);
        lemma_wf_update(v, j, name, q);
        assert(w[j] == (name, q));
    } else {
        assert forall|t: int| 0 <= t < v.len() implies #[trigger] v[t].0 != name by {
            if v[t].0 == name {
                lemma_present_key(v, name, t);
            }
        }
        assert(w.drop_last() =~= v);
        assert(w[v.len() as int] == (name, q));
    }
}

proof fn lemma_wf_update(s: Seq<(Seq<u8>, int)>, i: int, k: Seq<u8>, q: int)
    requires
        0 <= i < s.len(),
        s[i].0 == k,
        forall|a: int, b: int| 0 <= a < b < s.len() ==> #[trigger] s[a].0 != #[trigger] s[b].0,
    ensures
        forall|a: int, b: int|
            0 <= a < b < s.update(i, (k, q)).len() ==> #[trigger] s.update(i, (k, q))[a].0
                != #[trigger] s.update(i, (k, q))[b].0,
{
}

} // verus!
