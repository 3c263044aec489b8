//! An insertion-ordered map from a display field name to a per-field value.
//! Entry order is significant: it is the display order of the catalog's
//! field lists, so replacing a value keeps its position and a new name is
//! appended at the end.

use vstd::prelude::*;

verus! {

/// There is an entry with the given name.
pub open spec fn has_key<T>(m: Seq<(Seq<char>, T)>, k: Seq<char>) -> bool {
    exists|i: int| 0 <= i < m.len() && m[i].0 == k
}

/// The position of the entry with the given name.
pub open spec fn key_index<T>(m: Seq<(Seq<char>, T)>, k: Seq<char>) -> int {
    choose|i: int| 0 <= i < m.len() && m[i].0 == k
}

/// The value recorded under the given name.
pub open spec fn lookup<T>(m: Seq<(Seq<char>, T)>, k: Seq<char>) -> Option<T> {
    if has_key(m, k) {
        Some(m[key_index(m, k)].1)
    } else {
        None
    }
}

/// No two entries share a name.
pub open spec fn distinct_keys<T>(m: Seq<(Seq<char>, T)>) -> bool {
    forall|i: int, j: int| 0 <= i < j < m.len() ==> m[i].0 != m[j].0
}

/// An insertion-ordered map with pairwise distinct names.
pub struct OrderedMap<V> {
    pub entries: Vec<(String, V)>,
}

impl<V: View> View for OrderedMap<V> {
    type V = Seq<(Seq<char>, <V as View>::V)>;

    open spec fn view(&self) -> Seq<(Seq<char>, <V as View>::V)> {
        self.entries@.map_values(|p: (String, V)| (p.0@, p.1@))
    }
}

impl<V: View> OrderedMap<V> {
    /// The map's names are pairwise distinct.
    pub open spec fn wf(&self) -> bool {
        distinct_keys(self@)
    }

    /// The empty map.
    pub fn new() -> (r: OrderedMap<V>)
        ensures
            r@ == Seq::<(Seq<char>, <V as View>::V)>::empty(),
            r.wf(),
    {
        let r = OrderedMap { entries: Vec::new() };
        proof {
            assert(r@ =~= Seq::<(Seq<char>, <V as View>::V)>::empty());
        }
        r
    }

    /// The number of entries.
    pub fn len(&self) -> (r: usize)
        ensures
            r == self@.len(),
    {
        self.entries.len()
    }

    /// The name of the entry at a position.
    pub fn key_at(&self, i: usize) -> (r: &String)
        requires
            i < self@.len(),
        ensures
            r@ == self@[i as int].0,
    {
        &self.entries[i].0
    }

    /// The value of the entry at a position.
    pub fn value_at(&self, i: usize) -> (r: &V)
        requires
            i < self@.len(),
        ensures
            r@ == self@[i as int].1,
    {
        &self.entries[i].1
    }

    /// Whether an entry with the given name exists.
    pub fn contains_key(&self, key: &String) -> (r: bool)
        ensures
            r == has_key(self@, key@),
    {
        let n = self.entries.len();
        let mut i: usize = 0;
        while i < n
            invariant
                n == self@.len(),
                i <= n,
                forall|j: int| 0 <= j < i ==> (#[trigger] self@[j]).0 != key@,
            decreases n - i,
        {
            if self.entries[i].0 == *key {
                proof {
                    assert(self@[i as int].0 == key@);
                }
                return true;
            }
            i = i + 1;
        }
        false
    }

    /// The value recorded under the given name, if any.
    pub fn get(&self, key: &String) -> (r: Option<&V>)
        requires
            self.wf(),
        ensures
            r is Some <==> has_key(self@, key@),
            r is Some ==> lookup(self@, key@) == Some(r.unwrap()@),
    {
        let n = self.entries.len();
        let mut i: usize = 0;
        while i < n
            invariant
                self.wf(),
                n == self@.len(),
                i <= n,
                forall|j: int| 0 <= j < i ==> (#[trigger] self@[j]).0 != key@,
            decreases n - i,
        {
            if self.entries[i].0 == *key {
                proof {
                    assert(self@[i as int].0 == key@);
                    assert(has_key(self@, key@));
                    assert(key_index(self@, key@) == i as int) by {
                        let w = key_index(self@, key@);
                        if w != i as int {
                            assert(self@[w].0 == key@);
                        }
                    }
                }
                return Some(&self.entries[i].1);
            }
            i = i + 1;
        }
        None
    }

    /// Records a value under a name: an existing entry keeps its position and
    /// gets the new value; a new name is appended at the end.
    pub fn set(&mut self, key: String, value: V)
        requires
            old(self).wf(),
        ensures
            final(self).wf(),
            has_key(old(self)@, key@) ==> final(self)@ == old(self)@.update(
                key_index(old(self)@, key@),
                (key@, value@),
            ),
            !has_key(old(self)@, key@) ==> final(self)@ == old(self)@.push((key@, value@)),
    {
        let ghost m0 = self@;
        let n = self.entries.len();
        let mut i: usize = 0;
        while i < n
            invariant
                distinct_keys(m0),
                m0 == old(self)@,
                self@ == m0,
                n == m0.len(),
                i <= n,
                forall|j: int| 0 <= j < i ==> (#[trigger] m0[j]).0 != key@,
            decreases n - i,
        {
            if self.entries[i].0 == key {
                proof {
                    assert(m0[i as int].0 == key@);
                    assert(has_key(m0, key@));
                    assert(key_index(m0, key@) == i as int) by {
                        let w = key_index(m0, key@);
                        if w != i as int {
                            assert(m0[w].0 == key@);
                        }
                    }
                }
                self.entries[i] = (key, value);
                proof {
                    assert(self@ =~= m0.update(i as int, (key@, value@)));
                    assert forall|p: int, q: int|
                        0 <= p < q < self@.len() implies (#[trigger] self@[p]).0 != (
                    #[trigger] self@[q]).0 by {
                        assert(m0[p].0 != m0[q].0);
                    }
                }
                return ;
            }
            i = i + 1;
        }
        proof {
            assert(!has_key(m0, key@));
        }
        self.entries.push((key, value));
        proof {
            assert(self@ =~= m0.push((key@, value@)));
            assert forall|p: int, q: int|
                0 <= p < q < self@.len() implies (#[trigger] self@[p]).0 != (
            #[trigger] self@[q]).0 by {
                if q < m0.len() {
                    assert(m0[p].0 != m0[q].0);
                } else {
                    assert(self@[q] == (key@, value@));
                    assert(m0[p].0 != key@);
                }
            }
        }
    }
}

/// Looking up in a map extended by one entry: the new entry's name finds its
/// value, every other name finds what it found before.
pub proof fn lemma_lookup_push<T>(m: Seq<(Seq<char>, T)>, e: (Seq<char>, T), k: Seq<char>)
    requires
        distinct_keys(m.push(e)),
    ensures
        has_key(m.push(e), k) == (e.0 == k || has_key(m, k)),
        lookup(m.push(e), k) == if e.0 == k {
            Some(e.1)
        } else {
            lookup(m, k)
        },
{
    let mp = m.push(e);
    assert(forall|i: int| 0 <= i < m.len() ==> #[trigger] mp[i] == m[i]);
    assert(mp[m.len() as int] == e);
    if e.0 == k {
        assert(has_key(mp, k));
        assert(key_index(mp, k) == m.len() as int) by {
            let w = key_index(mp, k);
            if w != m.len() as int {
                assert(mp[w].0 == k);
            }
        }
    } else {
        if has_key(m, k) {
            let w = key_index(m, k);
            assert(m[w].0 == k);
            assert(mp[w].0 == k);
            assert(has_key(mp, k));
            assert(key_index(mp, k) == w) by {
                let w2 = key_index(mp, k);
                if w2 != w {
                    assert(mp[w2].0 == k);
                }
            }
        } else {
            if has_key(mp, k) {
                let w = key_index(mp, k);
                assert(mp[w].0 == k);
                assert(w != m.len() as int);
                assert(m[w].0 == k);
            }
        }
    }
}

/// A prefix of a map with distinct names has distinct names.
pub proof fn lemma_distinct_prefix<T>(a: Seq<(Seq<char>, T)>, b: Seq<(Seq<char>, T)>)
    requires
        distinct_keys(a + b),
    ensures
        distinct_keys(a),
        distinct_keys(b),
{
    let c = a + b;
    assert forall|i: int, j: int| 0 <= i < j < a.len() implies (#[trigger] a[i]).0 != (
    #[trigger] a[j]).0 by {
        assert(c[i] == a[i] && c[j] == a[j]);
    }
    assert forall|i: int, j: int| 0 <= i < j < b.len() implies (#[trigger] b[i]).0 != (
    #[trigger] b[j]).0 by {
        assert(c[a.len() + i] == b[i] && c[a.len() + j] == b[j]);
    }
}

/// Looking up in the concatenation of two maps: the left map wins where it
/// has the name, otherwise the right map answers.
pub proof fn lemma_lookup_add<T>(a: Seq<(Seq<char>, T)>, b: Seq<(Seq<char>, T)>, k: Seq<char>)
    requires
        distinct_keys(a + b),
    ensures
        has_key(a + b, k) == (has_key(a, k) || has_key(b, k)),
        lookup(a + b, k) == if has_key(a, k) {
            lookup(a, k)
        } else {
            lookup(b, k)
        },
    decreases b.len(),
{
    if b.len() == 0 {
        assert(a + b =~= a);
    } else {
        let b0 = b.drop_last();
        let e = b.last();
        assert(a + b =~= (a + b0).push(e));
        assert((a + b0) + seq![e] =~= a + b);
        lemma_distinct_prefix(a + b0, seq![e]);
        lemma_lookup_push(a + b0, e, k);
        lemma_lookup_add(a, b0, k);
        assert(forall|i: int| 0 <= i < b0.len() ==> #[trigger] b0[i] == b[i]);
        if e.0 == k {
            assert(b[b.len() - 1].0 == k);
            assert(has_key(b, k));
            if has_key(a, k) {
                let w = key_index(a, k);
                assert((a + b)[w].0 == k && (a + b)[a.len() + b.len() - 1].0 == k);
                assert(false);
            }
            assert(key_index(b, k) == b.len() - 1) by {
                let w = key_index(b, k);
                if w != b.len() - 1 {
                    assert(b[w].0 == k);
                    lemma_distinct_prefix(a, b);
                }
            }
        } else {
            if has_key(b0, k) {
                let w = key_index(b0, k);
                assert(b[w].0 == k);
                assert(has_key(b, k));
            }
            if has_key(b, k) {
                let w = key_index(b, k);
                assert(b[w].0 == k);
                assert(w != b.len() - 1);
                assert(b0[w].0 == k);
                assert(has_key(b0, k));
                assert(key_index(b, k) == key_index(b0, k)) by {
                    let w2 = key_index(b0, k);
                    assert(b[w2].0 == k);
                    lemma_distinct_prefix(a, b);
                }
            }
        }
    }
}

/// Filtering a map with distinct names keeps the names distinct, keeps each
/// surviving name's value, and keeps exactly the entries the predicate
/// accepts.
pub proof fn lemma_filter_entries<T>(m: Seq<(Seq<char>, T)>, pred: spec_fn((Seq<char>, T)) -> bool)
    requires
        distinct_keys(m),
    ensures
        distinct_keys(m.filter(pred)),
        forall|k: Seq<char>|
            #[trigger] has_key(m.filter(pred), k) <==> (has_key(m, k) && pred(
                m[key_index(m, k)],
            )),
        forall|k: Seq<char>|
            has_key(m.filter(pred), k) ==> #[trigger] lookup(m.filter(pred), k) == lookup(m, k),
    decreases m.len(),
{
    reveal(Seq::filter);
    if m.len() == 0 {
    } else {
        let s = m.drop_last();
        let e = m.last();
        assert(m =~= s.push(e));
        assert(s + seq![e] =~= m);
        lemma_distinct_prefix(s, seq![e]);
        lemma_filter_entries(s, pred);
        assert forall|k: Seq<char>| true implies {
            &&& (#[trigger] has_key(m.filter(pred), k) <==> (has_key(m, k) && pred(
                m[key_index(m, k)],
            )))
            &&& (has_key(m.filter(pred), k) ==> lookup(m.filter(pred), k) == lookup(m, k))
            &&& distinct_keys(m.filter(pred))
        } by {
            lemma_lookup_push(s, e, k);
            if pred(e) {
                assert(m.filter(pred) == s.filter(pred).push(e));
                assert(distinct_keys(s.filter(pred).push(e))) by {
                    let f = s.filter(pred);
                    assert forall|i: int, j: int|
                        0 <= i < j < f.push(e).len() implies (#[trigger] f.push(e)[i]).0 != (
                    #[trigger] f.push(e)[j]).0 by {
                        if j < f.len() {
                            assert(f[i].0 != f[j].0);
                        } else {
                            assert(f.push(e)[j] == e);
                            assert(f.push(e)[i] == f[i]);
                            assert(has_key(f, f[i].0));
                            assert(has_key(s, f[i].0));
                            let w = key_index(s, f[i].0);
                            assert(m[w].0 == f[i].0);
                            if f[i].0 == e.0 {
                                assert(m[w].0 == m[m.len() - 1].0);
                                assert(w != m.len() - 1);
                                assert(false);
                            }
                        }
                    }
                }
                lemma_lookup_push(s.filter(pred), e, k);
                if e.0 == k {
                    assert(key_index(m, k) == m.len() - 1) by {
                        let w = key_index(m, k);
                        if w != m.len() - 1 {
                            assert(m[w].0 == k);
                        }
                    }
                } else {
                    if has_key(s, k) {
                        assert(key_index(m, k) == key_index(s, k)) by {
                            let w = key_index(s, k);
                            assert(s[w].0 == k);
                            assert(m[w].0 == k);
                            assert(has_key(m, k));
                            let w2 = key_index(m, k);
                            if w2 != w {
                                assert(m[w2].0 == k);
                            }
                        }
                    }
                }
            } else {
                assert(m.filter(pred) == s.filter(pred));
                if e.0 == k {
                    assert(key_index(m, k) == m.len() - 1) by {
                        let w = key_index(m, k);
                        if w != m.len() - 1 {
                            assert(m[w].0 == k);
                        }
                    }
                    if has_key(s.filter(pred), k) {
                        assert(has_key(s, k));
                        let w = key_index(s, k);
                        assert(s[w].0 == k);
                        assert(m[w].0 == k);
                        assert(false);
                    }
                } else {
                    if has_key(s, k) {
                        assert(key_index(m, k) == key_index(s, k)) by {
                            let w = key_index(s, k);
                            assert(s[w].0 == k);
                            assert(m[w].0 == k);
                            assert(has_key(m, k));
                            let w2 = key_index(m, k);
                            if w2 != w {
                                assert(m[w2].0 == k);
                            }
                        }
                    }
                }
            }
        }
    }
}

/// A filter that accepts every element changes nothing.
pub proof fn lemma_filter_all_true<A>(m: Seq<A>, pred: spec_fn(A) -> bool)
    requires
        forall|i: int| 0 <= i < m.len() ==> pred(#[trigger] m[i]),
    ensures
        m.filter(pred) == m,
    decreases m.len(),
{
    reveal(Seq::filter);
    if m.len() > 0 {
        let s = m.drop_last();
        assert(forall|i: int| 0 <= i < s.len() ==> #[trigger] s[i] == m[i]);
        lemma_filter_all_true(s, pred);
        assert(m.filter(pred) =~= m);
    }
}

/// A filter that rejects every element leaves nothing.
pub proof fn lemma_filter_all_false<A>(m: Seq<A>, pred: spec_fn(A) -> bool)
    requires
        forall|i: int| 0 <= i < m.len() ==> !pred(#[trigger] m[i]),
    ensures
        m.filter(pred) == Seq::<A>::empty(),
    decreases m.len(),
{
    reveal(Seq::filter);
    if m.len() == 0 {
        assert(m.filter(pred) =~= Seq::<A>::empty());
    } else {
        let s = m.drop_last();
        assert(forall|i: int| 0 <= i < s.len() ==> #[trigger] s[i] == m[i]);
        lemma_filter_all_false(s, pred);
    }
}

} // verus!
