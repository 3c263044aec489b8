//! The schema differ: when the active category changes, the edit buffer is
//! reconciled against the new category's field set. Fields that only the
//! previous category had are removed, fields that only the new category has
//! are seeded with its default display strings, and fields present in both
//! keep their current, possibly user-edited, values.

use vstd::prelude::*;
use crate::model::PartsCategory;
use crate::ordmap::{
    distinct_keys, has_key, key_index, lemma_filter_all_false, lemma_filter_all_true,
    lemma_filter_entries, lemma_lookup_add, lookup, OrderedMap,
};
use crate::schema::{category_values, default_base_values, extraction_of, part_idents};

verus! {

/// The field map a switch to the given category instance reseeds from:
/// zero-valued base fields and the instance's own category fields.
pub open spec fn seed_map(c: PartsCategory) -> Seq<(Seq<char>, Seq<char>)> {
    extraction_of(part_idents(c), default_base_values() + category_values(c))
}

/// The edit buffer after a category switch: the buffer's entries whose names
/// the new category also has, in their buffer order, followed by the new
/// category's seed entries for names the buffer did not hold yet, in
/// declaration order.
pub open spec fn switched(buf: Seq<(Seq<char>, Seq<char>)>, c: PartsCategory) -> Seq<
    (Seq<char>, Seq<char>),
> {
    reconciled(buf, seed_map(c))
}

/// A buffer reconciled against a seed map: the buffer's entries whose names
/// the seed has, then the seed's entries for names the buffer lacks.
pub open spec fn reconciled<T>(buf: Seq<(Seq<char>, T)>, seed: Seq<(Seq<char>, T)>) -> Seq<
    (Seq<char>, T),
> {
    buf.filter(|e: (Seq<char>, T)| has_key(seed, e.0)) + seed.filter(
        |e: (Seq<char>, T)| !has_key(buf, e.0),
    )
}

/// The seed map of any category has pairwise distinct names.
pub proof fn lemma_seed_distinct(c: PartsCategory)
    ensures
        distinct_keys(seed_map(c)),
{
    crate::schema::lemma_part_names_distinct(c);
    let seed = seed_map(c);
    let names = part_idents(c).map_values(|s: Seq<char>| crate::text::spec_humanize(s));
    assert forall|p: int, q: int| 0 <= p < q < seed.len() implies (#[trigger] seed[p]).0 != (
    #[trigger] seed[q]).0 by {
        assert(names[p] == seed[p].0 && names[q] == seed[q].0);
    }
}

/// An edit buffer: the field map of the part being created or edited,
/// together with the currently selected category.
pub struct EditBuffer {
    pub fields: OrderedMap<String>,
    pub category: PartsCategory,
}

impl EditBuffer {
    /// The buffer's field names are pairwise distinct.
    pub open spec fn wf(&self) -> bool {
        distinct_keys(self.fields@)
    }

    /// A fresh session's buffer: the default instance of the default
    /// category, fully extracted.
    pub fn new() -> (r: EditBuffer)
        ensures
            r.wf(),
            r.fields@ == seed_map(PartsCategory::Basic),
            r.category == PartsCategory::Basic,
    {
        let category = PartsCategory::Basic;
        let fields = crate::schema::default_field_map(&category);
        EditBuffer { fields, category }
    }

    /// Records a user's edit of one field.
    pub fn set_field(&mut self, name: String, value: String)
        requires
            old(self).wf(),
        ensures
            final(self).wf(),
            final(self).category == old(self).category,
            has_key(old(self).fields@, name@) ==> final(self).fields@ == old(self).fields@.update(
                key_index(old(self).fields@, name@),
                (name@, value@),
            ),
            !has_key(old(self).fields@, name@) ==> final(self).fields@ == old(
                self,
            ).fields@.push((name@, value@)),
    {
        self.fields.set(name, value);
    }

    /// The current display string of one field.
    pub fn get_field(&self, name: &String) -> (r: Option<&String>)
        requires
            self.wf(),
        ensures
            r is Some <==> has_key(self.fields@, name@),
            r is Some ==> lookup(self.fields@, name@) == Some(r.unwrap()@),
    {
        self.fields.get(name)
    }

    /// Switches the buffer to a new category, reconciling the field set as
    /// the differ prescribes.
    pub fn switch_category(&mut self, category: &PartsCategory)
        requires
            old(self).wf(),
        ensures
            final(self).wf(),
            final(self).fields@ == switched(old(self).fields@, *category),
            final(self).category == *category,
    {
        let ghost b0 = self.fields@;
        let seed = crate::schema::default_field_map(category);
        let ghost sv = seed@;
        let n = self.fields.len();
        let mut kept: Vec<(String, String)> = Vec::new();
        let mut i: usize = 0;
        while i < n
            invariant
                distinct_keys(b0),
                distinct_keys(sv),
                self.fields@ == b0,
                seed@ == sv,
                n == b0.len(),
                i <= n,
                kept@.map_values(|p: (String, String)| (p.0@, p.1@)) == b0.take(i as int).filter(
                    |e: (Seq<char>, Seq<char>)| has_key(sv, e.0),
                ),
            decreases n - i,
        {
            let ghost prefix = kept@.map_values(|p: (String, String)| (p.0@, p.1@));
            let k = self.fields.key_at(i);
            let v = self.fields.value_at(i);
            let keep = seed.contains_key(k);
            proof {
                assert(b0.take(i + 1).drop_last() =~= b0.take(i as int));
                assert(b0.take(i + 1) =~= b0.take(i as int).push(b0[i as int]));
                Seq::lemma_filter_push(
                    b0.take(i as int),
                    b0[i as int],
                    |e: (Seq<char>, Seq<char>)| has_key(sv, e.0),
                );
            }
            if keep {
                kept.push((k.clone(), v.clone()));
                proof {
                    assert(kept@.map_values(|p: (String, String)| (p.0@, p.1@)) =~= prefix.push(
                        (b0[i as int].0, b0[i as int].1),
                    ));
                    assert((b0[i as int].0, b0[i as int].1) == b0[i as int]);
                }
            }
            i = i + 1;
        }
        proof {
            assert(b0.take(n as int) =~= b0);
        }
        let m = seed.len();
        let mut j: usize = 0;
        while j < m
            invariant
                distinct_keys(b0),
                distinct_keys(sv),
                seed@ == sv,
                m == sv.len(),
                j <= m,
                kept@.map_values(|p: (String, String)| (p.0@, p.1@)) == b0.filter(
                    |e: (Seq<char>, Seq<char>)| has_key(sv, e.0),
                ) + sv.take(j as int).filter(|e: (Seq<char>, Seq<char>)| !has_key(b0, e.0)),
                self.fields@ == b0,
            decreases m - j,
        {
            let ghost prefix = kept@.map_values(|p: (String, String)| (p.0@, p.1@));
            let k = seed.key_at(j);
            let fresh = !self.fields.contains_key(k);
            proof {
                assert(sv.take(j + 1).drop_last() =~= sv.take(j as int));
                assert(sv.take(j + 1) =~= sv.take(j as int).push(sv[j as int]));
                Seq::lemma_filter_push(
                    sv.take(j as int),
                    sv[j as int],
                    |e: (Seq<char>, Seq<char>)| !has_key(b0, e.0),
                );
            }
            if fresh {
                let v = seed.value_at(j);
                kept.push((k.clone(), v.clone()));
                proof {
                    assert(kept@.map_values(|p: (String, String)| (p.0@, p.1@)) =~= prefix.push(
                        (sv[j as int].0, sv[j as int].1),
                    ));
                    assert((sv[j as int].0, sv[j as int].1) == sv[j as int]);
                }
            }
            j = j + 1;
        }
        proof {
            assert(sv.take(m as int) =~= sv);
        }
        self.fields = OrderedMap { entries: kept };
        self.category = category.duplicate();
        proof {
            lemma_switched_entries(b0, *category);
        }
    }
}

/// The buffer after a switch has distinct names; its name set is exactly the
/// new category's field-name set; a name the buffer already had keeps its
/// value, and a name it did not have carries the seed's value.
pub proof fn lemma_switched_entries(buf: Seq<(Seq<char>, Seq<char>)>, c: PartsCategory)
    requires
        distinct_keys(buf),
    ensures
        distinct_keys(switched(buf, c)),
        forall|k: Seq<char>|
            #[trigger] has_key(switched(buf, c), k) <==> has_key(seed_map(c), k),
        forall|k: Seq<char>|
            has_key(seed_map(c), k) && has_key(buf, k) ==> #[trigger] lookup(
                switched(buf, c),
                k,
            ) == lookup(buf, k),
        forall|k: Seq<char>|
            has_key(seed_map(c), k) && !has_key(buf, k) ==> #[trigger] lookup(
                switched(buf, c),
                k,
            ) == lookup(seed_map(c), k),
{
    let seed = seed_map(c);
    let keep_pred = |e: (Seq<char>, Seq<char>)| has_key(seed, e.0);
    let fresh_pred = |e: (Seq<char>, Seq<char>)| !has_key(buf, e.0);
    let a = buf.filter(keep_pred);
    let b = seed.filter(fresh_pred);
    lemma_seed_distinct(c);
    lemma_filter_entries(buf, keep_pred);
    lemma_filter_entries(seed, fresh_pred);
    assert(distinct_keys(a + b)) by {
        assert forall|p: int, q: int| 0 <= p < q < (a + b).len() implies (#[trigger] (a + b)[
        p]).0 != (#[trigger] (a + b)[q]).0 by {
            if q < a.len() {
                assert((a + b)[p] == a[p] && (a + b)[q] == a[q]);
            } else if p >= a.len() {
                assert((a + b)[p] == b[p - a.len()] && (a + b)[q] == b[q - a.len()]);
            } else {
                assert((a + b)[p] == a[p] && (a + b)[q] == b[q - a.len()]);
                let kp = a[p].0;
                assert(has_key(a, kp)) by {
                    assert(a[p].0 == kp);
                }
                assert(has_key(buf, kp));
                if b[q - a.len()].0 == kp {
                    assert(has_key(b, kp)) by {
                        assert(b[q - a.len()].0 == kp);
                    }
                    assert(!has_key(buf, kp));
                }
            }
        }
    }
    assert forall|k: Seq<char>| true implies {
        &&& (#[trigger] has_key(switched(buf, c), k) <==> has_key(seed, k))
        &&& (has_key(seed, k) && has_key(buf, k) ==> lookup(switched(buf, c), k) == lookup(buf, k))
        &&& (has_key(seed, k) && !has_key(buf, k) ==> lookup(switched(buf, c), k) == lookup(
            seed,
            k,
        ))
    } by {
        lemma_lookup_add(a, b, k);
        if has_key(a, k) {
            assert(has_key(buf, k) && keep_pred(buf[key_index(buf, k)]));
            assert(buf[key_index(buf, k)].0 == k);
            assert(has_key(seed, k));
        }
        if has_key(b, k) {
            assert(has_key(seed, k));
        }
        if has_key(seed, k) {
            if has_key(buf, k) {
                assert(buf[key_index(buf, k)].0 == k);
                assert(keep_pred(buf[key_index(buf, k)]));
                assert(has_key(a, k));
            } else {
                assert(seed[key_index(seed, k)].0 == k);
                assert(fresh_pred(seed[key_index(seed, k)]));
                assert(has_key(b, k));
            }
        }
    }
}

/// The buffer's names and the seed's names coincide as sets.
pub open spec fn covers(buf: Seq<(Seq<char>, Seq<char>)>, c: PartsCategory) -> bool {
    &&& forall|i: int| 0 <= i < buf.len() ==> has_key(seed_map(c), (#[trigger] buf[i]).0)
    &&& forall|j: int| 0 <= j < seed_map(c).len() ==> has_key(buf, (#[trigger] seed_map(c)[j]).0)
}

/// Switching to the category the buffer already belongs to changes nothing:
/// every buffer entry survives the filter and no seed entry is missing.
pub proof fn lemma_switch_same_category(buf: Seq<(Seq<char>, Seq<char>)>, c: PartsCategory)
    requires
        distinct_keys(buf),
        covers(buf, c),
    ensures
        switched(buf, c) == buf,
{
    let seed = seed_map(c);
    let keep_pred = |e: (Seq<char>, Seq<char>)| has_key(seed, e.0);
    let fresh_pred = |e: (Seq<char>, Seq<char>)| !has_key(buf, e.0);
    lemma_filter_all_true(buf, keep_pred);
    lemma_filter_all_false(seed, fresh_pred);
    assert(switched(buf, c) =~= buf);
}

} // verus!
