//! A map from names to values that keeps its entries in name order, each
//! name at most once: the shape the configuration gives to its task table
//! and to each task's environment.
use crate::text::{less_than, same_text, lemma_text_less_irreflexive, lemma_text_less_total,
    lemma_text_less_transitive, text_less};
use vstd::prelude::*;

verus! {

/// Names in strictly increasing order (hence each at most once).
pub open spec fn sorted_names(k: Seq<Seq<char>>) -> bool {
    forall|i: int, j: int| 0 <= i < j < k.len() ==> text_less(#[trigger] k[i], #[trigger] k[j])
}

/// The names of a list of entries.
spec fn keys_of<V>(e: Seq<(String, V)>) -> Seq<Seq<char>> {
    e.map_values(|x: (String, V)| x.0@)
}

/// Entries `(name, value)` held in increasing name order.
#[derive(Debug, PartialEq, Eq)]
pub struct NameMap<V> {
    entries: Vec<(String, V)>,
}

impl<V> NameMap<V> {
    /// The names, in the order the map holds them.
    pub closed spec fn keys(&self) -> Seq<Seq<char>> {
        keys_of(self.entries@)
    }

    /// The values, position for position with `keys`.
    pub closed spec fn values(&self) -> Seq<V> {
        self.entries@.map_values(|e: (String, V)| e.1)
    }

    /// Well-formed: names strictly increasing. Every map keeps this.
    #[verifier::type_invariant]
    pub open spec fn wf(&self) -> bool {
        sorted_names(self.keys())
    }

    /// The structural facts of a well-formed map: one value per name, the
    /// map view holding exactly the names, each with its value.
    pub proof fn lemma_view(&self)
        requires
            self.wf(),
        ensures
            self.keys().len() == self.values().len(),
            forall|i: int|
                0 <= i < self.keys().len() ==> #[trigger] self@.contains_key(self.keys()[i])
                    && self@[self.keys()[i]] == self.values()[i],
            forall|k: Seq<char>| #[trigger] self@.contains_key(k) <==> self.keys().contains(k),
            self@.dom().finite(),
            self@.dom().len() == self.keys().len(),
    {
        let keys = self.keys();
        assert forall|i: int| 0 <= i < keys.len() implies #[trigger] self@.contains_key(keys[i])
            && self@[keys[i]] == self.values()[i] by {
            assert(keys.contains(keys[i]));
            let j = keys.index_of(keys[i]);
            if j != i {
                if j < i {
                    assert(text_less(keys[j], keys[i]));
                } else {
                    assert(text_less(keys[i], keys[j]));
                }
                lemma_text_less_irreflexive(keys[i]);
            }
        }
        lemma_unique_len(keys);
        assert(self@.dom() =~= keys.to_set());
    }

    /// An empty map.
    pub fn new() -> (m: Self)
        ensures
            m.keys() == Seq::<Seq<char>>::empty(),
            m@ == Map::<Seq<char>, V>::empty(),
    {
        let m = NameMap { entries: Vec::new() };
        assert(m.keys() =~= Seq::<Seq<char>>::empty());
        assert(m@ =~= Map::<Seq<char>, V>::empty());
        m
    }

    /// The number of entries.
    pub fn len(&self) -> (n: usize)
        ensures
            n == self.keys().len(),
            n == self.values().len(),
    {
        self.entries.len()
    }

    /// Whether the map holds no entry.
    pub fn is_empty(&self) -> (b: bool)
        ensures
            b == (self.keys().len() == 0),
    {
        self.entries.len() == 0
    }

    /// The name at position `i`.
    pub fn key_at(&self, i: usize) -> (k: &String)
        requires
            i < self.keys().len(),
        ensures
            k@ == self.keys()[i as int],
    {
        &self.entries[i].0
    }

    /// The value at position `i`.
    pub fn value_at(&self, i: usize) -> (v: &V)
        requires
            i < self.keys().len(),
        ensures
            *v == self.values()[i as int],
    {
        &self.entries[i].1
    }

    /// The value held under `key`, if any.
    pub fn get(&self, key: &str) -> (r: Option<&V>)
        ensures
            r is Some <==> self@.contains_key(key@),
            r is Some ==> *r->0 == self@[key@],
    {
        proof {
            use_type_invariant(self);
            self.lemma_view();
        }
        let n = self.entries.len();
        let mut i: usize = 0;
        while i < n
            invariant
                i <= n,
                n == self.keys().len(),
                forall|j: int| 0 <= j < i ==> self.keys()[j] != key@,
                self.wf(),
            decreases n - i,
        {
            if same_text(self.entries[i].0.as_str(), key) {
                proof {
                    self.lemma_view();
                    assert(self.keys()[i as int] == key@);
                    assert(self@.contains_key(self.keys()[i as int]));
                    assert(self.values()[i as int] == self.entries@[i as int].1);
                }
                return Some(&self.entries[i].1);
            }
            i = i + 1;
        }
        proof {
            self.lemma_view();
        }
        None
    }

    /// Whether some entry is named `key`.
    pub fn contains_key(&self, key: &str) -> (b: bool)
        ensures
            b == self@.contains_key(key@),
    {
        self.get(key).is_some()
    }

    /// Adds an entry whose name comes after every name held.
    pub(crate) fn push_last(&mut self, key: String, value: V)
        requires
            old(self).keys().len() > 0 ==> text_less(old(self).keys().last(), key@),
        ensures
            final(self).wf(),
            final(self).keys() == old(self).keys().push(key@),
            final(self).values() == old(self).values().push(value),
            final(self)@ == old(self)@.insert(key@, value),
    {
        let ghost k = key@;
        let ghost v = value;
        proof {
            use_type_invariant(&*self);
            old(self).lemma_view();
        }
        let mut entries: Vec<(String, V)> = Vec::new();
        std::mem::swap(&mut self.entries, &mut entries);
        entries.push((key, value));
        proof {
            let ok = old(self).keys();
            let nk = keys_of(entries@);
            assert(nk =~= ok.push(k));
            assert forall|i: int, j: int| 0 <= i < j < nk.len() implies text_less(
                #[trigger] nk[i],
                #[trigger] nk[j],
            ) by {
                if j == ok.len() && i < ok.len() - 1 {
                    assert(text_less(ok[i], ok[ok.len() - 1]));
                    lemma_text_less_transitive(ok[i], ok.last(), k);
                }
            }
        }
        self.entries = entries;
        proof {
            let ok = old(self).keys();
            assert(self.keys() =~= ok.push(k));
            assert(self.values() =~= old(self).values().push(v));
            self.lemma_view();
            old(self).lemma_view();
            assert forall|kk: Seq<char>| #[trigger] self@.contains_key(kk) <==> old(self)@.insert(
                k,
                v,
            ).contains_key(kk) by {
                if self.keys().contains(kk) {
                    let i = choose|i: int| 0 <= i < self.keys().len() && self.keys()[i] == kk;
                    if i < ok.len() {
                        assert(ok.contains(kk));
                    }
                }
                if ok.contains(kk) {
                    let i = choose|i: int| 0 <= i < ok.len() && ok[i] == kk;
                    assert(self.keys()[i] == kk);
                }
                assert(self.keys()[ok.len() as int] == k);
            }
            assert forall|kk: Seq<char>| #[trigger] self@.contains_key(kk) implies self@[kk]
                == old(self)@.insert(k, v)[kk] by {
                let i = choose|i: int| 0 <= i < self.keys().len() && self.keys()[i] == kk;
                assert(self@[self.keys()[i]] == self.values()[i]);
                if i < ok.len() {
                    assert(old(self)@[ok[i]] == old(self).values()[i]);
                    assert(text_less(ok[i], k)) by {
                        if i < ok.len() - 1 {
                            assert(text_less(ok[i], ok[ok.len() - 1]));
                            lemma_text_less_transitive(ok[i], ok.last(), k);
                        }
                    }
                    lemma_text_less_irreflexive(k);
                }
            }
            assert(self@ =~= old(self)@.insert(k, v));
        }
    }

    /// Sets the value under `key`, adding the entry in name order when the
    /// name is new and replacing the value when it is already there.
    pub fn insert(&mut self, key: String, value: V)
        ensures
            final(self).wf(),
            final(self)@ == old(self)@.insert(key@, value),
    {
        let ghost k = key@;
        let ghost v = value;
        let ghost ok = old(self).keys();
        proof {
            use_type_invariant(&*self);
            old(self).lemma_view();
        }
        let mut entries: Vec<(String, V)> = Vec::new();
        std::mem::swap(&mut self.entries, &mut entries);
        assert(keys_of(entries@) == ok);
        let n = entries.len();
        let mut i: usize = 0;
        while i < n && less_than(entries[i].0.as_str(), key.as_str())
            invariant
                i <= n,
                n == entries@.len(),
                keys_of(entries@) == ok,
                entries@ == old(self).entries@,
                k == key@,
                forall|j: int| 0 <= j < i ==> text_less(#[trigger] ok[j], k),
            decreases n - i,
        {
            i = i + 1;
        }
        if i < n && same_text(entries[i].0.as_str(), key.as_str()) {
            entries.set(i, (key, value));
            proof {
                assert(keys_of(entries@) =~= ok.update(i as int, k));
                assert(keys_of(entries@) =~= ok);
            }
            self.entries = entries;
            proof {
                assert(self.keys() =~= ok);
                assert(self.values() =~= old(self).values().update(i as int, v));
                self.lemma_view();
                assert forall|kk: Seq<char>| #[trigger] self@.contains_key(kk)
                    == old(self)@.insert(k, v).contains_key(kk) by {
                    assert(ok[i as int] == k);
                }
                assert forall|kk: Seq<char>| #[trigger] self@.contains_key(kk) implies self@[kk]
                    == old(self)@.insert(k, v)[kk] by {
                    let j = choose|j: int| 0 <= j < ok.len() && ok[j] == kk;
                    assert(self@[ok[j]] == self.values()[j]);
                    assert(old(self)@[ok[j]] == old(self).values()[j]);
                    if j != i && kk == k {
                        assert(ok[i as int] == ok[j]);
                        if j < i {
                            assert(text_less(ok[j], ok[i as int]));
                        } else {
                            assert(text_less(ok[i as int], ok[j]));
                        }
                        lemma_text_less_irreflexive(k);
                    }
                }
                assert(self@ =~= old(self)@.insert(k, v));
            }
        } else {
            proof {
                if i < n {
                    lemma_text_less_total(ok[i as int], k);
                    assert(text_less(k, ok[i as int]));
                }
            }
            entries.insert(i, (key, value));
            proof {
                let nk = keys_of(entries@);
                assert(nk =~= ok.insert(i as int, k));
                assert forall|a: int, b: int| 0 <= a < b < nk.len() implies text_less(
                    #[trigger] nk[a],
                    #[trigger] nk[b],
                ) by {
                    if a < i && b == i {
                    } else if a == i && b > i {
                        if b - 1 > i {
                            assert(text_less(ok[i as int], ok[b - 1]));
                            lemma_text_less_transitive(k, ok[i as int], ok[b - 1]);
                        }
                    } else if a < i && b > i {
                        assert(text_less(ok[a], ok[b - 1]));
                    } else if b < i {
                    } else {
                        assert(text_less(ok[a - 1], ok[b - 1]));
                    }
                }
            }
            self.entries = entries;
            proof {
                let nk = self.keys();
                assert(nk =~= ok.insert(i as int, k));
                assert(self.values() =~= old(self).values().insert(i as int, v));
                self.lemma_view();
                assert forall|kk: Seq<char>| #[trigger] self@.contains_key(kk)
                    == old(self)@.insert(k, v).contains_key(kk) by {
                    if nk.contains(kk) {
                        let j = choose|j: int| 0 <= j < nk.len() && nk[j] == kk;
                        if j < i {
                            assert(ok[j] == kk);
                        } else if j > i {
                            assert(ok[j - 1] == kk);
                        }
                    }
                    if ok.contains(kk) {
                        let j = choose|j: int| 0 <= j < ok.len() && ok[j] == kk;
                        if j < i {
                            assert(nk[j] == kk);
                        } else {
                            assert(nk[j + 1] == kk);
                        }
                    }
                    assert(nk[i as int] == k);
                }
                assert forall|kk: Seq<char>| #[trigger] self@.contains_key(kk) implies self@[kk]
                    == old(self)@.insert(k, v)[kk] by {
                    let j = choose|j: int| 0 <= j < nk.len() && nk[j] == kk;
                    assert(self@[nk[j]] == self.values()[j]);
                    if j < i {
                        assert(old(self)@[ok[j]] == old(self).values()[j]);
                        assert(text_less(ok[j], k));
                        lemma_text_less_irreflexive(k);
                    } else if j > i {
                        assert(old(self)@[ok[j - 1]] == old(self).values()[j - 1]);
                        assert(text_less(nk[i as int], nk[j]));
                        lemma_text_less_irreflexive(k);
                    }
                }
                assert(self@ =~= old(self)@.insert(k, v));
            }
        }
    }
}

impl<V> View for NameMap<V> {
    type V = Map<Seq<char>, V>;

    closed spec fn view(&self) -> Map<Seq<char>, V> {
        Map::new(
            |k: Seq<char>| self.keys().contains(k),
            |k: Seq<char>| self.values()[self.keys().index_of(k)],
        )
    }
}

impl NameMap<String> {
    /// A copy of a map of strings, entry for entry.
    pub fn duplicate(&self) -> (m: Self)
        ensures
            m.keys() == self.keys(),
            m.values() == self.values(),
            m@ == self@,
    {
        let mut entries: Vec<(String, String)> = Vec::new();
        let n = self.entries.len();
        let mut i: usize = 0;
        while i < n
            invariant
                i <= n,
                n == self.entries@.len(),
                entries@.len() == i,
                forall|j: int| 0 <= j < i ==> #[trigger] entries@[j] == self.entries@[j],
            decreases n - i,
        {
            let k = self.entries[i].0.clone();
            let v = self.entries[i].1.clone();
            entries.push((k, v));
            i = i + 1;
        }
        proof {
            use_type_invariant(self);
            assert(entries@ =~= self.entries@);
        }
        NameMap { entries }
    }
}

/// Reading a name just written gives the value written; every other name
/// reads as before. (The law connecting `insert` and `get`, whose contracts
/// speak of the map view.)
pub proof fn lemma_read_after_write<V>(
    before: Map<Seq<char>, V>,
    key: Seq<char>,
    value: V,
    other: Seq<char>,
)
    ensures
        before.insert(key, value).contains_key(key),
        before.insert(key, value)[key] == value,
        other != key ==> before.insert(key, value).contains_key(other) == before.contains_key(
            other,
        ),
        other != key && before.contains_key(other) ==> before.insert(key, value)[other]
            == before[other],
{
}

/// Name order is the only order: two sequences of names, each in
/// increasing order, that hold the same names are the same sequence.
pub proof fn lemma_sorted_names_unique(a: Seq<Seq<char>>, b: Seq<Seq<char>>)
    requires
        sorted_names(a),
        sorted_names(b),
        forall|x: Seq<char>| a.contains(x) <==> b.contains(x),
    ensures
        a == b,
    decreases a.len(),
{
    if a.len() == 0 {
        if b.len() > 0 {
            assert(b.contains(b[0]));
        }
        assert(a =~= b);
    } else if b.len() == 0 {
        assert(a.contains(a[0]));
    } else {
        let x = a.last();
        let y = b.last();
        assert(a.contains(x)) by {
            assert(a[a.len() - 1] == x);
        }
        assert(b.contains(y)) by {
            assert(b[b.len() - 1] == y);
        }
        let j = choose|j: int| 0 <= j < b.len() && b[j] == x;
        let i = choose|i: int| 0 <= i < a.len() && a[i] == y;
        if x != y {
            if j < b.len() - 1 {
                assert(text_less(b[j], b[b.len() - 1]));
            }
            if i < a.len() - 1 {
                assert(text_less(a[i], a[a.len() - 1]));
            }
            lemma_text_less_total(x, y);
        }
        let a1 = a.drop_last();
        let b1 = b.drop_last();
        assert(sorted_names(a1)) by {
            assert forall|p: int, q: int| 0 <= p < q < a1.len() implies text_less(
                #[trigger] a1[p],
                #[trigger] a1[q],
            ) by {
                assert(a1[p] == a[p] && a1[q] == a[q]);
            }
        }
        assert(sorted_names(b1)) by {
            assert forall|p: int, q: int| 0 <= p < q < b1.len() implies text_less(
                #[trigger] b1[p],
                #[trigger] b1[q],
            ) by {
                assert(b1[p] == b[p] && b1[q] == b[q]);
            }
        }
        assert forall|z: Seq<char>| a1.contains(z) <==> b1.contains(z) by {
            if a1.contains(z) {
                let p = choose|p: int| 0 <= p < a1.len() && a1[p] == z;
                assert(a[p] == z);
                assert(text_less(a[p], a[a.len() - 1]));
                lemma_text_less_irreflexive(z);
                assert(a.contains(z));
                let q = choose|q: int| 0 <= q < b.len() && b[q] == z;
                if q == b.len() - 1 {
                    assert(z == y);
                }
                assert(b1[q] == z);
            }
            if b1.contains(z) {
                let p = choose|p: int| 0 <= p < b1.len() && b1[p] == z;
                assert(b[p] == z);
                assert(text_less(b[p], b[b.len() - 1]));
                lemma_text_less_irreflexive(z);
                assert(b.contains(z));
                let q = choose|q: int| 0 <= q < a.len() && a[q] == z;
                if q == a.len() - 1 {
                    assert(z == x);
                }
                assert(a1[q] == z);
            }
        }
        lemma_sorted_names_unique(a1, b1);
        assert(a =~= a1.push(x));
        assert(b =~= b1.push(y));
    }
}

/// A sequence without repeats has as many distinct elements as positions.
proof fn lemma_unique_len(k: Seq<Seq<char>>)
    requires
        sorted_names(k),
    ensures
        k.to_set().len() == k.len(),
        k.to_set().finite(),
    decreases k.len(),
{
    if k.len() == 0 {
        assert(k.to_set() =~= Set::<Seq<char>>::empty());
    } else {
        let init = k.drop_last();
        assert(sorted_names(init)) by {
            assert forall|i: int, j: int| 0 <= i < j < init.len() implies text_less(
                #[trigger] init[i],
                #[trigger] init[j],
            ) by {
                assert(init[i] == k[i] && init[j] == k[j]);
            }
        }
        lemma_unique_len(init);
        assert forall|x: Seq<char>| #[trigger] k.to_set().contains(x) == init.to_set().insert(
            k.last(),
        ).contains(x) by {
            if k.contains(x) {
                let i = choose|i: int| 0 <= i < k.len() && k[i] == x;
                if i < k.len() - 1 {
                    assert(init[i] == x);
                }
            }
            if init.contains(x) {
                let i = choose|i: int| 0 <= i < init.len() && init[i] == x;
                assert(k[i] == x);
            }
            assert(k[k.len() - 1] == k.last());
        }
        assert(k.to_set() =~= init.to_set().insert(k.last()));
        if init.to_set().contains(k.last()) {
            let i = choose|i: int| 0 <= i < init.len() && init[i] == k.last();
            assert(text_less(k[i], k[k.len() - 1]));
            lemma_text_less_irreflexive(k.last());
        }
    }
}

} // verus!
