//! A small map kept as a list of entries, for keys that are compared by
//! what they hold: account names, token names, category numbers.

use vstd::prelude::*;

verus! {

/// A value that can be copied with its view kept.
pub trait Duplicate: View + Sized {
    fn dup(&self) -> (r: Self)
        ensures
            r@ == self@,
    ;
}

/// A key of an [`AssocMap`]: two keys are the same key when their views are
/// equal.
pub trait Key: Duplicate {
    fn same(&self, other: &Self) -> (r: bool)
        ensures
            r == (self@ == other@),
    ;
}

impl Duplicate for String {
    fn dup(&self) -> (r: Self) {
        self.clone()
    }
}

impl Duplicate for u16 {
    fn dup(&self) -> (r: Self) {
        *self
    }
}

impl Duplicate for u64 {
    fn dup(&self) -> (r: Self) {
        *self
    }
}

impl Duplicate for bool {
    fn dup(&self) -> (r: Self) {
        *self
    }
}

impl Key for String {
    fn same(&self, other: &Self) -> (r: bool) {
        *self == *other
    }
}

impl Key for u16 {
    fn same(&self, other: &Self) -> (r: bool) {
        *self == *other
    }
}

struct Entry<K, V> {
    key: K,
    value: V,
}

/// No two entries have the same key.
spec fn distinct<K: Key, V: View>(es: Seq<Entry<K, V>>) -> bool {
    forall|i: int, j: int| 0 <= i < j < es.len() ==> es[i].key@ != es[j].key@
}

spec fn holds<K: Key, V: View>(es: Seq<Entry<K, V>>, k: K::V) -> bool {
    exists|i: int| 0 <= i < es.len() && es[i].key@ == k
}

spec fn slot<K: Key, V: View>(es: Seq<Entry<K, V>>, k: K::V) -> int {
    choose|i: int| 0 <= i < es.len() && es[i].key@ == k
}

/// The map that a list of entries stands for.
spec fn map_of<K: Key, V: View>(es: Seq<Entry<K, V>>) -> Map<K::V, V::V> {
    Map::new(|k: K::V| holds(es, k), |k: K::V| es[slot(es, k)].value@)
}

spec fn key_views<K: Key, V: View>(es: Seq<Entry<K, V>>) -> Seq<K::V> {
    Seq::new(es.len(), |i: int| es[i].key@)
}

proof fn lemma_slots<K: Key, V: View>(es: Seq<Entry<K, V>>)
    requires
        distinct(es),
    ensures
        forall|i: int|
            0 <= i < es.len() ==> map_of(es).contains_key(#[trigger] es[i].key@) && map_of(
                es,
            )[es[i].key@] == es[i].value@,
        forall|k: K::V| #[trigger]
            map_of(es).contains_key(k) ==> 0 <= slot(es, k) < es.len() && es[slot(es, k)].key@
                == k,
        map_of(es).dom().finite(),
        map_of(es).len() == es.len(),
{
    assert forall|i: int| 0 <= i < es.len() implies map_of(es).contains_key(
        #[trigger] es[i].key@,
    ) && map_of(es)[es[i].key@] == es[i].value@ by {
        let k = es[i].key@;
        assert(holds(es, k));
        assert(slot(es, k) == i);
    }
    let ks = key_views(es);
    assert forall|k: K::V| map_of(es).dom().contains(k) <==> ks.to_set().contains(k) by {
        if map_of(es).dom().contains(k) {
            let j = slot(es, k);
            assert(ks[j] == k);
        }
        if ks.to_set().contains(k) {
            let j = choose|j: int| 0 <= j < ks.len() && ks[j] == k;
            assert(es[j].key@ == k);
        }
    }
    assert(map_of(es).dom() =~= ks.to_set());
    ks.unique_seq_to_set();
    vstd::seq_lib::seq_to_set_is_finite(ks);
}

/// Taking the entry at `i` out, with the last entry moved into its place,
/// takes its key out of the map.
proof fn lemma_swap_remove<K: Key, V: View>(es: Seq<Entry<K, V>>, i: int)
    requires
        distinct(es),
        0 <= i < es.len(),
    ensures
        distinct(es.update(i, es.last()).drop_last()),
        map_of(es.update(i, es.last()).drop_last()) == map_of(es).remove(es[i].key@),
{
    let after = es.update(i, es.last()).drop_last();
    let last = es.len() - 1;
    assert forall|a: int| 0 <= a < after.len() implies #[trigger] after[a] == es[if a == i {
        last
    } else {
        a
    }] by {}
    assert(distinct(after)) by {
        assert forall|a: int, b: int| 0 <= a < b < after.len() implies after[a].key@
            != after[b].key@ by {
            let oa = if a == i { last } else { a };
            let ob = if b == i { last } else { b };
            assert(after[a] == es[oa]);
            assert(after[b] == es[ob]);
        }
    }
    lemma_slots(es);
    lemma_slots(after);
    let gone = es[i].key@;
    assert forall|k: K::V| map_of(after).contains_key(k) <==> map_of(es).remove(gone).contains_key(
        k,
    ) by {
        if map_of(after).contains_key(k) {
            let j = slot(after, k);
            let oj = if j == i { last } else { j };
            assert(after[j] == es[oj]);
        }
        if map_of(es).remove(gone).contains_key(k) {
            let oj = slot(es, k);
            let j = if oj == last { i } else { oj };
            assert(after[j] == es[oj]);
            assert(after[j].key@ == k);
        }
    }
    assert forall|k: K::V| map_of(after).contains_key(k) implies map_of(after)[k] == map_of(
        es,
    ).remove(gone)[k] by {
        let j = slot(after, k);
        let oj = if j == i { last } else { j };
        assert(after[j] == es[oj]);
    }
    assert(map_of(after) =~= map_of(es).remove(gone));
}

/// Adding an entry under a key that the map lacks puts it into the map.
proof fn lemma_push<K: Key, V: View>(es: Seq<Entry<K, V>>, e: Entry<K, V>)
    requires
        distinct(es),
        !map_of(es).contains_key(e.key@),
    ensures
        distinct(es.push(e)),
        map_of(es.push(e)) == map_of(es).insert(e.key@, e.value@),
{
    let after = es.push(e);
    let n = es.len() as int;
    lemma_slots(es);
    assert forall|a: int| 0 <= a < n implies #[trigger] after[a] == es[a] by {}
    assert(distinct(after)) by {
        assert forall|a: int, b: int| 0 <= a < b < after.len() implies after[a].key@
            != after[b].key@ by {
            assert(after[a] == es[a]);
            if b < n {
                assert(after[b] == es[b]);
            } else {
                assert(map_of(es).contains_key(es[a].key@));
            }
        }
    }
    lemma_slots(after);
    assert forall|k: K::V| map_of(after).contains_key(k) <==> map_of(es).insert(
        e.key@,
        e.value@,
    ).contains_key(k) by {
        if map_of(after).contains_key(k) {
            let j = slot(after, k);
            if j < n {
                assert(es[j].key@ == k);
            }
        }
        if map_of(es).contains_key(k) {
            let j = slot(es, k);
            assert(after[j].key@ == k);
        }
        if k == e.key@ {
            assert(after[n].key@ == k);
        }
    }
    assert forall|k: K::V| map_of(after).contains_key(k) implies map_of(after)[k] == map_of(
        es,
    ).insert(e.key@, e.value@)[k] by {
        let j = slot(after, k);
        if j < n {
            assert(after[j] == es[j]);
        }
    }
    assert(map_of(after) =~= map_of(es).insert(e.key@, e.value@));
}

/// A finite map from keys to values. No key is held twice.
pub struct AssocMap<K: Key, V: View> {
    entries: Vec<Entry<K, V>>,
}

impl<K: Key, V: View> View for AssocMap<K, V> {
    type V = Map<K::V, V::V>;

    closed spec fn view(&self) -> Map<K::V, V::V> {
        map_of(self.entries@)
    }
}

impl<K: Key, V: View> AssocMap<K, V> {
    #[verifier::type_invariant]
    spec fn keys_distinct(self) -> bool {
        distinct(self.entries@)
    }

    /// An empty map.
    pub fn new() -> (r: Self)
        ensures
            r@ == Map::<K::V, V::V>::empty(),
    {
        let r = AssocMap { entries: Vec::new() };
        assert(r@ =~= Map::<K::V, V::V>::empty());
        r
    }

    /// The number of keys.
    pub fn len(&self) -> (r: usize)
        ensures
            self@.dom().finite(),
            r == self@.len(),
    {
        proof {
            use_type_invariant(self);
            lemma_slots(self.entries@);
        }
        self.entries.len()
    }

    fn find(&self, key: &K) -> (r: Option<usize>)
        ensures
            match r {
                Some(i) => i < self.entries.len() && self.entries[i as int].key@ == key@,
                None => !self@.contains_key(key@),
            },
    {
        let mut i: usize = 0;
        while i < self.entries.len()
            invariant
                i <= self.entries.len(),
                forall|j: int| 0 <= j < i ==> self.entries[j].key@ != key@,
            decreases self.entries.len() - i,
        {
            if self.entries[i].key.same(key) {
                return Some(i);
            }
            i += 1;
        }
        None
    }

    /// Whether `key` is in the map.
    pub fn contains_key(&self, key: &K) -> (r: bool)
        ensures
            r == self@.contains_key(key@),
    {
        proof {
            use_type_invariant(self);
            lemma_slots(self.entries@);
        }
        self.find(key).is_some()
    }

    /// The value kept under `key`.
    pub fn get(&self, key: &K) -> (r: Option<&V>)
        ensures
            r is Some <==> self@.contains_key(key@),
            r is Some ==> r->0@ == self@[key@],
    {
        proof {
            use_type_invariant(self);
            lemma_slots(self.entries@);
        }
        match self.find(key) {
            Some(i) => Some(&self.entries[i].value),
            None => None,
        }
    }

    fn take_entries(&mut self) -> (r: Vec<Entry<K, V>>)
        ensures
            r == old(self).entries,
            distinct(r@),
    {
        proof {
            use_type_invariant(&*self);
        }
        let mut other = AssocMap { entries: Vec::new() };
        core::mem::swap(self, &mut other);
        other.entries
    }

    /// Puts `value` under `key` and hands back what was there before.
    pub fn insert(&mut self, key: K, value: V) -> (r: Option<V>)
        ensures
            final(self)@ == old(self)@.insert(key@, value@),
            r is Some <==> old(self)@.contains_key(key@),
            r is Some ==> r->0@ == old(self)@[key@],
    {
        let found = self.find(&key);
        let mut entries = self.take_entries();
        let ghost before = entries@;
        proof {
            lemma_slots(before);
        }
        let r = match found {
            Some(i) => {
                proof {
                    lemma_swap_remove(before, i as int);
                }
                let e = entries.swap_remove(i);
                Some(e.value)
            },
            None => {
                assert(map_of(before).remove(key@) =~= map_of(before));
                None
            },
        };
        let e = Entry { key, value };
        proof {
            lemma_push(entries@, e);
            assert(map_of(before).remove(e.key@).insert(e.key@, e.value@) =~= map_of(
                before,
            ).insert(e.key@, e.value@));
        }
        entries.push(e);
        self.entries = entries;
        r
    }

    /// Takes `key` out of the map and hands back what was kept under it.
    pub fn remove(&mut self, key: &K) -> (r: Option<V>)
        ensures
            final(self)@ == old(self)@.remove(key@),
            r is Some <==> old(self)@.contains_key(key@),
            r is Some ==> r->0@ == old(self)@[key@],
    {
        let found = self.find(key);
        let mut entries = self.take_entries();
        let ghost before = entries@;
        proof {
            lemma_slots(before);
        }
        let r = match found {
            Some(i) => {
                proof {
                    lemma_swap_remove(before, i as int);
                }
                let e = entries.swap_remove(i);
                Some(e.value)
            },
            None => {
                assert(map_of(before).remove(key@) =~= map_of(before));
                None
            },
        };
        self.entries = entries;
        r
    }

    /// The keys of the map, each once.
    pub fn keys(&self) -> (r: Vec<K>)
        ensures
            r@.len() == self@.len(),
            forall|i: int| 0 <= i < r@.len() ==> self@.contains_key((#[trigger] r@[i])@),
            forall|k: K::V|
                self@.contains_key(k) ==> exists|i: int|
                    0 <= i < r@.len() && (#[trigger] r@[i])@ == k,
            forall|i: int, j: int| 0 <= i < j < r@.len() ==> r@[i]@ != r@[j]@,
    {
        proof {
            use_type_invariant(self);
            lemma_slots(self.entries@);
        }
        let mut out: Vec<K> = Vec::new();
        let mut i: usize = 0;
        while i < self.entries.len()
            invariant
                i <= self.entries.len(),
                out@.len() == i,
                forall|j: int| 0 <= j < i ==> (#[trigger] out@[j])@ == self.entries[j].key@,
            decreases self.entries.len() - i,
        {
            out.push(self.entries[i].key.dup());
            i += 1;
        }
        proof {
            assert forall|k: K::V| self@.contains_key(k) implies exists|i: int|
                0 <= i < out@.len() && (#[trigger] out@[i])@ == k by {
                let j = slot(self.entries@, k);
                assert(out@[j]@ == k);
            }
        }
        out
    }
}

impl<K: Key, V: Duplicate> Duplicate for AssocMap<K, V> {
    fn dup(&self) -> (r: Self) {
        proof {
            use_type_invariant(self);
        }
        let mut entries: Vec<Entry<K, V>> = Vec::new();
        let mut i: usize = 0;
        while i < self.entries.len()
            invariant
                i <= self.entries.len(),
                entries@.len() == i,
                forall|j: int|
                    0 <= j < i ==> (#[trigger] entries@[j]).key@ == self.entries[j].key@
                        && entries@[j].value@ == self.entries[j].value@,
            decreases self.entries.len() - i,
        {
            let e = Entry { key: self.entries[i].key.dup(), value: self.entries[i].value.dup() };
            entries.push(e);
            i += 1;
        }
        proof {
            lemma_same_entries(self.entries@, entries@);
        }
        AssocMap { entries }
    }
}

impl<K: Key, V: Duplicate> Clone for AssocMap<K, V> {
    fn clone(&self) -> (r: Self)
        ensures
            r@ == self@,
    {
        self.dup()
    }
}

/// Two lists with the same keys and values, place by place, stand for the
/// same map.
proof fn lemma_same_entries<K: Key, V: View>(a: Seq<Entry<K, V>>, b: Seq<Entry<K, V>>)
    requires
        distinct(a),
        a.len() == b.len(),
        forall|j: int|
            0 <= j < a.len() ==> (#[trigger] b[j]).key@ == a[j].key@ && b[j].value@ == a[j].value@,
    ensures
        distinct(b),
        map_of(b) == map_of(a),
{
    assert(distinct(b)) by {
        assert forall|i: int, j: int| 0 <= i < j < b.len() implies b[i].key@ != b[j].key@ by {
            assert(b[i].key@ == a[i].key@);
            assert(b[j].key@ == a[j].key@);
        }
    }
    lemma_slots(a);
    lemma_slots(b);
    assert forall|k: K::V| map_of(a).contains_key(k) <==> map_of(b).contains_key(k) by {
        if map_of(a).contains_key(k) {
            let j = slot(a, k);
            assert(b[j].key@ == k);
        }
        if map_of(b).contains_key(k) {
            let j = slot(b, k);
            assert(a[j].key@ == k);
        }
    }
    assert forall|k: K::V| map_of(b).contains_key(k) implies map_of(b)[k] == map_of(a)[k] by {
        let j = slot(b, k);
        assert(b[j].key@ == a[j].key@);
    }
    assert(map_of(b) =~= map_of(a));
}

} // verus!
