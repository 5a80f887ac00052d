//! A bounded cache of loaded documents keyed by book id, evicting the least
//! recently used entry. Recency is kept by an `lru::LruCache` from book id to
//! the slot that holds the document; slots of evicted books are reused.
use vstd::prelude::*;

verus! {

/// `lru::LruCache`, opaque; what it holds is named by `lru_entries` below.
#[verifier::external_type_specification]
#[verifier::external_body]
#[verifier::reject_recursive_types(K)]
#[verifier::reject_recursive_types(V)]
#[verifier::reject_recursive_types(S)]
pub struct ExLruCache<K, V, S>(lru::LruCache<K, V, S>);

/// `lru::DefaultHasher`, the hasher parameter of `lru::LruCache`, opaque.
#[verifier::external_type_specification]
#[verifier::external_body]
pub struct ExLruHasher(lru::DefaultHasher);

/// The entries of an LRU map from book id to slot, least recently used first.
pub uninterp spec fn lru_entries(c: lru::LruCache<usize, usize>) -> Seq<(usize, usize)>;

/// The capacity that an LRU map was made with.
pub uninterp spec fn lru_capacity(c: lru::LruCache<usize, usize>) -> nat;

/// No key occurs twice.
pub open spec fn distinct_keys<V>(s: Seq<(usize, V)>) -> bool {
    forall|i: int, j: int| 0 <= i < j < s.len() ==> s[i].0 != s[j].0
}

/// Where the key stands in the entries, or -1.
pub open spec fn key_index<V>(s: Seq<(usize, V)>, k: usize) -> int
    decreases s.len(),
{
    if s.len() == 0 {
        -1
    } else if s.last().0 == k {
        s.len() - 1
    } else {
        key_index(s.drop_last(), k)
    }
}

/// The entries after a use of entry `i`: it moves to the most recent end.
pub open spec fn touched<V>(s: Seq<(usize, V)>, i: int) -> Seq<(usize, V)> {
    s.remove(i).push(s[i])
}

/// The entries after a new key comes in: at capacity the least recently used
/// entry leaves first.
pub open spec fn admitted<V>(s: Seq<(usize, V)>, k: usize, v: V, cap: nat) -> Seq<(usize, V)> {
    if s.len() < cap {
        s.push((k, v))
    } else {
        s.drop_first().push((k, v))
    }
}

pub proof fn lemma_key_index<V>(s: Seq<(usize, V)>, k: usize)
    ensures
        -1 <= key_index(s, k) < s.len(),
        key_index(s, k) >= 0 ==> s[key_index(s, k)].0 == k,
        key_index(s, k) == -1 <==> forall|j: int| 0 <= j < s.len() ==> s[j].0 != k,
    decreases s.len(),
{
    if s.len() > 0 && s.last().0 != k {
        lemma_key_index(s.drop_last(), k);
        if key_index(s, k) == -1 {
            assert forall|j: int| 0 <= j < s.len() implies s[j].0 != k by {
                if j < s.len() - 1 {
                    assert(s[j] == s.drop_last()[j]);
                }
            }
        }
    }
}

proof fn lemma_key_index_same_keys<V, W>(s: Seq<(usize, V)>, t: Seq<(usize, W)>, k: usize)
    requires
        s.len() == t.len(),
        forall|i: int| 0 <= i < s.len() ==> s[i].0 == t[i].0,
    ensures
        key_index(s, k) == key_index(t, k),
    decreases s.len(),
{
    if s.len() > 0 {
        lemma_key_index_same_keys(s.drop_last(), t.drop_last(), k);
    }
}

/// At capacity, a new key evicts exactly the least recently used entry: the
/// first key leaves, every other key and the new one stay, in recency order.
pub proof fn lemma_full_cache_evicts_least_recent<V>(s: Seq<(usize, V)>, k: usize, v: V, cap: nat)
    requires
        cap > 0,
        s.len() == cap,
        distinct_keys(s),
        key_index(s, k) < 0,
    ensures
        admitted(s, k, v, cap) == s.drop_first().push((k, v)),
        key_index(admitted(s, k, v, cap), s[0].0) < 0,
        forall|j: int| 1 <= j < s.len() ==> key_index(admitted(s, k, v, cap), #[trigger] s[j].0) >= 0,
        key_index(admitted(s, k, v, cap), k) >= 0,
{
    let t = admitted(s, k, v, cap);
    lemma_key_index(s, k);
    lemma_key_index(t, s[0].0);
    lemma_key_index(t, k);
    assert forall|j: int| 0 <= j < t.len() implies t[j].0 != s[0].0 by {
        if j < t.len() - 1 {
            assert(t[j] == s[j + 1]);
        }
    }
    assert forall|j: int| 1 <= j < s.len() implies key_index(t, #[trigger] s[j].0) >= 0 by {
        lemma_key_index(t, s[j].0);
        assert(t[j - 1] == s[j]);
    }
}

/// Using an entry protects it: after a use, the next new key at capacity
/// evicts some other entry, as long as the cache holds at least two.
pub proof fn lemma_use_prevents_eviction<V>(s: Seq<(usize, V)>, i: int, k: usize, v: V, cap: nat)
    requires
        cap >= 2,
        s.len() == cap,
        distinct_keys(s),
        0 <= i < s.len(),
        key_index(s, k) < 0,
    ensures
        key_index(admitted(touched(s, i), k, v, cap), s[i].0) >= 0,
{
    let t = touched(s, i);
    let u = admitted(t, k, v, cap);
    assert(t.len() == cap);
    assert(u[u.len() - 2] == t[t.len() - 1]);
    lemma_key_index(u, s[i].0);
}

/// Two lookups of one book with nothing in between give the same document: a
/// lookup leaves the book most recently used, and a hit on the most recently
/// used entry gives its document and leaves the order as it was.
pub proof fn lemma_repeated_lookup_same_document<V>(s: Seq<(usize, V)>, id: usize)
    requires
        distinct_keys(s),
        s.len() > 0,
        s.last().0 == id,
    ensures
        key_index(s, id) == s.len() - 1,
        s[key_index(s, id)].1 == s.last().1,
        touched(s, key_index(s, id)) == s,
{
    assert(touched(s, s.len() - 1) =~= s);
}

/// Relies on `lru::LruCache::new`: a new map is empty and has the given capacity.
#[verifier::external_body]
fn lru_new(cap: usize) -> (r: lru::LruCache<usize, usize>)
    requires
        cap > 0,
    ensures
        lru_entries(r) == Seq::<(usize, usize)>::empty(),
        lru_capacity(r) == cap,
{
    lru::LruCache::new(std::num::NonZeroUsize::new(cap).unwrap())
}

/// Relies on `lru::LruCache::get`: a present key gives its value and becomes the
/// most recently used; an absent one gives nothing and changes nothing.
#[verifier::external_body]
fn lru_get(c: &mut lru::LruCache<usize, usize>, k: usize) -> (r: Option<usize>)
    requires
        distinct_keys(lru_entries(*old(c))),
    ensures
        lru_capacity(*final(c)) == lru_capacity(*old(c)),
        key_index(lru_entries(*old(c)), k) >= 0 ==> {
            let i = key_index(lru_entries(*old(c)), k);
            &&& r == Some(lru_entries(*old(c))[i].1)
            &&& lru_entries(*final(c)) == touched(lru_entries(*old(c)), i)
        },
        key_index(lru_entries(*old(c)), k) < 0 ==> {
            &&& r is None
            &&& lru_entries(*final(c)) == lru_entries(*old(c))
        },
{
    c.get(&k).copied()
}

/// Relies on `lru::LruCache::put`: a new key below capacity is added as the most
/// recently used entry, and nothing leaves.
#[verifier::external_body]
fn lru_put(c: &mut lru::LruCache<usize, usize>, k: usize, v: usize)
    requires
        key_index(lru_entries(*old(c)), k) < 0,
        lru_entries(*old(c)).len() < lru_capacity(*old(c)),
    ensures
        lru_capacity(*final(c)) == lru_capacity(*old(c)),
        lru_entries(*final(c)) == lru_entries(*old(c)).push((k, v)),
{
    c.put(k, v);
}

/// Relies on `lru::LruCache::pop_lru`: removes and returns the least recently
/// used entry, if any.
#[verifier::external_body]
fn lru_pop_lru(c: &mut lru::LruCache<usize, usize>) -> (r: Option<(usize, usize)>)
    ensures
        lru_capacity(*final(c)) == lru_capacity(*old(c)),
        lru_entries(*old(c)).len() == 0 ==> r is None && lru_entries(*final(c)) == lru_entries(*old(c)),
        lru_entries(*old(c)).len() > 0 ==> {
            &&& r == Some(lru_entries(*old(c))[0])
            &&& lru_entries(*final(c)) == lru_entries(*old(c)).drop_first()
        },
{
    c.pop_lru()
}

/// Relies on `lru::LruCache::len`: the number of entries.
#[verifier::external_body]
fn lru_len(c: &lru::LruCache<usize, usize>) -> (r: usize)
    ensures
        r == lru_entries(*c).len(),
{
    c.len()
}

/// A bounded cache of documents of type `D`, keyed by book id.
pub struct DocumentCache<D> {
    index: lru::LruCache<usize, usize>,
    slots: Vec<D>,
    capacity: usize,
}

impl<D> DocumentCache<D> {
    /// The cache holds at most `capacity` entries, one slot each, with no book
    /// and no slot twice.
    pub closed spec fn wf(&self) -> bool {
        let e = lru_entries(self.index);
        &&& self.capacity > 0
        &&& lru_capacity(self.index) == self.capacity
        &&& e.len() == self.slots@.len()
        &&& e.len() <= self.capacity
        &&& distinct_keys(e)
        &&& forall|i: int| 0 <= i < e.len() ==> #[trigger] e[i].1 < e.len()
        &&& forall|i: int, j: int| 0 <= i < j < e.len() ==> e[i].1 != e[j].1
    }

    pub closed spec fn cap(&self) -> nat {
        self.capacity as nat
    }

    /// The cached documents by book id, least recently used first.
    pub closed spec fn entries(&self) -> Seq<(usize, D)> {
        lru_entries(self.index).map_values(|e: (usize, usize)| (e.0, self.slots@[e.1 as int]))
    }

    /// The document held in a slot.
    pub closed spec fn slot_spec(&self, slot: int) -> D {
        self.slots@[slot]
    }

    /// An empty cache of the given capacity.
    pub fn new(capacity: usize) -> (r: Self)
        requires
            capacity > 0,
        ensures
            r.wf(),
            r.cap() == capacity,
            r.entries() == Seq::<(usize, D)>::empty(),
    {
        let r = DocumentCache { index: lru_new(capacity), slots: Vec::new(), capacity };
        assert(r.entries() =~= Seq::<(usize, D)>::empty());
        r
    }

    /// The number of cached documents.
    pub fn len(&self) -> (r: usize)
        requires
            self.wf(),
        ensures
            r == self.entries().len(),
    {
        lru_len(&self.index)
    }

    proof fn lemma_entries_keys(&self)
        requires
            self.wf(),
        ensures
            self.entries().len() == lru_entries(self.index).len(),
            forall|i: int| 0 <= i < self.entries().len() ==> #[trigger] self.entries()[i].0 == lru_entries(self.index)[i].0,
            forall|i: int| 0 <= i < self.entries().len() ==> #[trigger] self.entries()[i].1 == self.slots@[lru_entries(self.index)[i].1 as int],
            distinct_keys(self.entries()),
    {
    }

    /// Looks a book up. A hit makes it the most recently used entry and gives
    /// the slot of its document; a miss changes nothing.
    pub fn get(&mut self, id: usize) -> (r: Option<usize>)
        requires
            old(self).wf(),
        ensures
            final(self).wf(),
            final(self).cap() == old(self).cap(),
            key_index(old(self).entries(), id) >= 0 ==> {
                let i = key_index(old(self).entries(), id);
                &&& r matches Some(slot)
                &&& slot < final(self).entries().len()
                &&& final(self).slot_spec(slot as int) == old(self).entries()[i].1
                &&& final(self).entries() == touched(old(self).entries(), i)
            },
            key_index(old(self).entries(), id) < 0 ==> {
                &&& r is None
                &&& final(self).entries() == old(self).entries()
            },
    {
        let ghost e = lru_entries(self.index);
        proof {
            self.lemma_entries_keys();
            lemma_key_index(e, id);
            lemma_key_index(self.entries(), id);
            lemma_key_index_same_keys(e, self.entries(), id);
        }
        let r = lru_get(&mut self.index, id);
        proof {
            let e2 = lru_entries(self.index);
            if key_index(e, id) >= 0 {
                let i = key_index(e, id);
                assert(e2 =~= e.remove(i).push(e[i]));
                assert forall|a: int, b: int| 0 <= a < b < e2.len() implies e2[a].1 != e2[b].1 by {
                    if b == e2.len() - 1 {
                        if a < i {
                            assert(e2[a] == e[a]);
                        } else {
                            assert(e2[a] == e[a + 1]);
                        }
                    } else {
                        let a0 = if a < i { a } else { a + 1 };
                        let b0 = if b < i { b } else { b + 1 };
                        assert(e2[a] == e[a0]);
                        assert(e2[b] == e[b0]);
                    }
                }
                assert forall|a: int, b: int| 0 <= a < b < e2.len() implies e2[a].0 != e2[b].0 by {
                    if b == e2.len() - 1 {
                        if a < i {
                            assert(e2[a] == e[a]);
                        } else {
                            assert(e2[a] == e[a + 1]);
                        }
                    } else {
                        let a0 = if a < i { a } else { a + 1 };
                        let b0 = if b < i { b } else { b + 1 };
                        assert(e2[a] == e[a0]);
                        assert(e2[b] == e[b0]);
                    }
                }
                assert forall|a: int| 0 <= a < e2.len() implies #[trigger] e2[a].1 < e2.len() by {
                    if a == e2.len() - 1 {
                    } else if a < i {
                        assert(e2[a] == e[a]);
                    } else {
                        assert(e2[a] == e[a + 1]);
                    }
                }
                assert(self.entries() =~= touched(old(self).entries(), i));
            } else {
                assert(self.entries() =~= old(self).entries());
            }
        }
        r
    }

    /// Adds the document of a book that is not cached, as the most recently
    /// used entry; at capacity the least recently used entry leaves and its
    /// slot is reused.
    pub fn insert(&mut self, id: usize, doc: D) -> (slot: usize)
        requires
            old(self).wf(),
            key_index(old(self).entries(), id) < 0,
        ensures
            final(self).wf(),
            final(self).cap() == old(self).cap(),
            final(self).entries() == admitted(old(self).entries(), id, doc, old(self).cap()),
            slot < final(self).entries().len(),
            final(self).slot_spec(slot as int) == doc,
    {
        let ghost e = lru_entries(self.index);
        let ghost old_entries = self.entries();
        proof {
            self.lemma_entries_keys();
            lemma_key_index(old_entries, id);
            lemma_key_index(e, id);
            lemma_key_index_same_keys(e, old_entries, id);
        }
        let n = lru_len(&self.index);
        if n < self.capacity {
            self.slots.push(doc);
            lru_put(&mut self.index, id, n);
            proof {
                let e2 = lru_entries(self.index);
                assert(e2 == e.push((id, n)));
                assert forall|a: int| 0 <= a < e2.len() implies #[trigger] e2[a].1 < e2.len() by {
                    if a < e.len() {
                        assert(e2[a] == e[a]);
                    }
                }
                assert forall|a: int, b: int| 0 <= a < b < e2.len() implies e2[a].1 != e2[b].1 && e2[a].0 != e2[b].0 by {
                    assert(e2[a] == e[a]);
                    if b < e.len() {
                        assert(e2[b] == e[b]);
                    }
                }
                assert forall|a: int| 0 <= a < e.len() implies #[trigger] self.slots@[e[a].1 as int] == old(self).slots@[e[a].1 as int] by {
                }
                assert(self.entries() =~= old_entries.push((id, doc)));
            }
            n
        } else {
            let popped = lru_pop_lru(&mut self.index);
            let (_, slot) = popped.unwrap();
            self.slots.set(slot, doc);
            proof {
                let e1 = lru_entries(self.index);
                lemma_key_index(e1, id);
                assert forall|j: int| 0 <= j < e1.len() implies e1[j].0 != id by {
                    assert(e1[j] == e[j + 1]);
                }
            }
            lru_put(&mut self.index, id, slot);
            proof {
                let e2 = lru_entries(self.index);
                assert(e2 =~= e.drop_first().push((id, slot)));
                assert forall|a: int| 0 <= a < e2.len() implies #[trigger] e2[a].1 < e2.len() by {
                    if a < e2.len() - 1 {
                        assert(e2[a] == e[a + 1]);
                    }
                }
                assert forall|a: int, b: int| 0 <= a < b < e2.len() implies e2[a].1 != e2[b].1 && e2[a].0 != e2[b].0 by {
                    assert(e2[a] == e[a + 1]);
                    if b < e2.len() - 1 {
                        assert(e2[b] == e[b + 1]);
                    } else {
                        assert(e[0].1 != e[a + 1].1);
                        assert(e[a + 1].0 != id) by {
                            assert(old_entries[a + 1].0 == e[a + 1].0);
                        }
                    }
                }
                assert forall|a: int| 1 <= a < e.len() implies #[trigger] self.slots@[e[a].1 as int] == old(self).slots@[e[a].1 as int] by {
                    assert(e[0].1 != e[a].1);
                }
                assert(self.entries() =~= old_entries.drop_first().push((id, doc)));
            }
            slot
        }
    }

    /// Gives the slot of a book's document, loading it on a miss. A hit makes
    /// the book the most recently used. A loaded document is cached, evicting
    /// the least recently used entry at capacity; a failed load leaves the
    /// cache as it was and hands back the error, so the next call loads again.
    pub fn try_get_or_insert<E, F: FnOnce() -> Result<D, E>>(&mut self, id: usize, load: F) -> (r: Result<usize, E>)
        requires
            old(self).wf(),
            key_index(old(self).entries(), id) < 0 ==> load.requires(()),
        ensures
            final(self).wf(),
            final(self).cap() == old(self).cap(),
            key_index(old(self).entries(), id) >= 0 ==> {
                let i = key_index(old(self).entries(), id);
                &&& r matches Ok(slot)
                &&& final(self).slot_spec(slot as int) == old(self).entries()[i].1
                &&& final(self).entries() == touched(old(self).entries(), i)
            },
            key_index(old(self).entries(), id) < 0 ==> match r {
                Ok(slot) => {
                    &&& load.ensures((), Ok::<D, E>(final(self).slot_spec(slot as int)))
                    &&& final(self).entries() == admitted(
                        old(self).entries(),
                        id,
                        final(self).slot_spec(slot as int),
                        old(self).cap(),
                    )
                },
                Err(err) => {
                    &&& load.ensures((), Err::<D, E>(err))
                    &&& final(self).entries() == old(self).entries()
                },
            },
            r matches Ok(slot) ==> {
                &&& slot < final(self).entries().len()
                &&& final(self).entries().last() == (id, final(self).slot_spec(slot as int))
            },
    {
        proof {
            lemma_key_index(old(self).entries(), id);
        }
        match self.get(id) {
            Some(slot) => {
                proof {
                    let i = key_index(old(self).entries(), id);
                    assert(self.entries().last() == old(self).entries()[i]);
                }
                Ok(slot)
            },
            None => {
                match load() {
                    Ok(doc) => {
                        let slot = self.insert(id, doc);
                        Ok(slot)
                    },
                    Err(err) => Err(err),
                }
            },
        }
    }

    /// The document in a slot that the cache handed out.
    pub fn document(&self, slot: usize) -> (r: &D)
        requires
            self.wf(),
            slot < self.entries().len(),
        ensures
            *r == self.slot_spec(slot as int),
    {
        &self.slots[slot]
    }
}

} // verus!
