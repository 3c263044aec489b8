//! The ordering store: session state recording, per field name, a
//! visibility flag, in the insertion order that the comparison table, filter
//! panel and part listing display. Category switches merge newly appearing
//! field names at the end, default-visible, and never discard a recorded
//! entry, so a user's earlier choices resurface when a category is selected
//! again.

use vstd::prelude::*;
use crate::differ::{lemma_seed_distinct, seed_map};
use crate::model::PartsCategory;
use crate::ordmap::{
    distinct_keys, has_key, key_index, lemma_filter_all_false, lemma_filter_entries,
    lemma_lookup_add, lookup, OrderedMap,
};
use crate::schema::part_idents;
use crate::text::spec_humanize;

verus! {

/// The ordering entries a category contributes: its field names in
/// declaration order, each visible by default.
pub open spec fn ord_seed(c: PartsCategory) -> Seq<(Seq<char>, bool)> {
    Seq::new(part_idents(c).len(), |i: int| (spec_humanize(part_idents(c)[i]), true))
}

/// The store after a merge for a category: the old entries unchanged, then
/// the category's field names that had no entry yet, appended in declaration
/// order, visible.
pub open spec fn merged(s: Seq<(Seq<char>, bool)>, c: PartsCategory) -> Seq<(Seq<char>, bool)> {
    s + ord_seed(c).filter(|e: (Seq<char>, bool)| !has_key(s, e.0))
}

/// The field names the store shows for a category: entries whose name the
/// category has and whose flag is visible, in recorded order.
pub open spec fn scoped(s: Seq<(Seq<char>, bool)>, c: PartsCategory) -> Seq<Seq<char>> {
    s.filter(|e: (Seq<char>, bool)| has_key(seed_map(c), e.0) && e.1).map_values(
        |e: (Seq<char>, bool)| e.0,
    )
}

/// The seed entries carry the same names as the seed field map, and they are
/// pairwise distinct.
pub proof fn lemma_ord_seed_names(c: PartsCategory)
    ensures
        ord_seed(c).len() == seed_map(c).len(),
        forall|j: int|
            0 <= j < ord_seed(c).len() ==> (#[trigger] ord_seed(c)[j]).0 == seed_map(c)[j].0,
        distinct_keys(ord_seed(c)),
{
    lemma_seed_distinct(c);
    assert forall|p: int, q: int|
        0 <= p < q < ord_seed(c).len() implies (#[trigger] ord_seed(c)[p]).0 != (
    #[trigger] ord_seed(c)[q]).0 by {
        assert(seed_map(c)[p].0 == ord_seed(c)[p].0);
        assert(seed_map(c)[q].0 == ord_seed(c)[q].0);
    }
}

/// The session's ordering store.
pub struct OrderingStore {
    pub entries: OrderedMap<bool>,
}

impl OrderingStore {
    /// The store's names are pairwise distinct.
    pub open spec fn wf(&self) -> bool {
        distinct_keys(self.entries@)
    }

    /// A fresh session's store: every field of the given category, in
    /// declaration order, visible.
    pub fn initial(category: &PartsCategory) -> (r: OrderingStore)
        ensures
            r.wf(),
            r.entries@ == ord_seed(*category),
    {
        let seed = crate::schema::default_field_map(category);
        let n = seed.len();
        let mut v: Vec<(String, bool)> = Vec::new();
        let mut j: usize = 0;
        while j < n
            invariant
                n == seed@.len(),
                j <= n,
                seed@ == seed_map(*category),
                v@.map_values(|p: (String, bool)| (p.0@, p.1)) =~= Seq::new(
                    j as nat,
                    |i: int| (seed_map(*category)[i].0, true),
                ),
            decreases n - j,
        {
            let ghost prefix = v@.map_values(|p: (String, bool)| (p.0@, p.1));
            let k = seed.key_at(j);
            v.push((k.clone(), true));
            proof {
                assert(v@.map_values(|p: (String, bool)| (p.0@, p.1)) =~= prefix.push(
                    (seed_map(*category)[j as int].0, true),
                ));
            }
            j = j + 1;
        }
        let ghost vv = v@;
        let r = OrderingStore { entries: OrderedMap { entries: v } };
        proof {
            lemma_ord_seed_names(*category);
            assert forall|i: int| 0 <= i < vv.len() implies #[trigger] r.entries@[i] == ord_seed(
                *category,
            )[i] by {
                assert(r.entries@[i] == (vv[i].0@, vv[i].1@));
                assert(vv.map_values(|p: (String, bool)| (p.0@, p.1))[i] == (vv[i].0@, vv[i].1));
                assert(ord_seed(*category)[i] == (seed_map(*category)[i].0, true));
            }
            assert(r.entries@ =~= ord_seed(*category));
            lemma_seed_distinct(*category);
            assert forall|p: int, q: int|
                0 <= p < q < r.entries@.len() implies (#[trigger] r.entries@[p]).0 != (
            #[trigger] r.entries@[q]).0 by {
                assert(ord_seed(*category)[p].0 != ord_seed(*category)[q].0);
            }
        }
        r
    }

    /// Merges a newly selected category's field names into the store:
    /// existing entries keep their place and flag, new names are appended
    /// visible.
    pub fn merge_category(&mut self, category: &PartsCategory)
        requires
            old(self).wf(),
        ensures
            final(self).wf(),
            final(self).entries@ == merged(old(self).entries@, *category),
    {
        let ghost s0 = self.entries@;
        let ghost sd = ord_seed(*category);
        let seed = crate::schema::default_field_map(category);
        let n = seed.len();
        let mut j: usize = 0;
        proof {
            lemma_ord_seed_names(*category);
        }
        while j < n
            invariant
                distinct_keys(s0),
                distinct_keys(sd),
                sd == ord_seed(*category),
                s0 == old(self).entries@,
                n == seed@.len(),
                j <= n,
                seed@ == seed_map(*category),
                sd.len() == n,
                forall|i: int| 0 <= i < n ==> (#[trigger] sd[i]).0 == seed_map(*category)[i].0,
                self.entries@ == s0 + sd.take(j as int).filter(
                    |e: (Seq<char>, bool)| !has_key(s0, e.0),
                ),
            decreases n - j,
        {
            let ghost tail = sd.take(j as int).filter(|e: (Seq<char>, bool)| !has_key(s0, e.0));
            let k = seed.key_at(j);
            let fresh = !self.entries.contains_key(k);
            proof {
                assert(k@ == sd[j as int].0);
                lemma_filter_entries(sd.take(j as int), |e: (Seq<char>, bool)| !has_key(s0, e.0));
                assert(distinct_keys(sd.take(j as int))) by {
                    assert forall|p: int, q: int|
                        0 <= p < q < j implies (#[trigger] sd.take(j as int)[p]).0 != (
                    #[trigger] sd.take(j as int)[q]).0 by {
                        assert(sd[p].0 != sd[q].0);
                    }
                }
                assert(distinct_keys(s0 + tail)) by {
                    assert forall|p: int, q: int|
                        0 <= p < q < (s0 + tail).len() implies (#[trigger] (s0 + tail)[p]).0 != (
                    #[trigger] (s0 + tail)[q]).0 by {
                        if q < s0.len() {
                            assert((s0 + tail)[p] == s0[p] && (s0 + tail)[q] == s0[q]);
                        } else if p >= s0.len() {
                            assert((s0 + tail)[p] == tail[p - s0.len()] && (s0 + tail)[q] == tail[q
                                - s0.len()]);
                        } else {
                            assert((s0 + tail)[p] == s0[p] && (s0 + tail)[q] == tail[q - s0.len()]);
                            let kq = tail[q - s0.len()].0;
                            assert(has_key(tail, kq)) by {
                                assert(tail[q - s0.len()].0 == kq);
                            }
                            assert(!has_key(s0, kq));
                            if s0[p].0 == kq {
                                assert(has_key(s0, kq)) by {
                                    assert(s0[p].0 == kq);
                                }
                            }
                        }
                    }
                }
                lemma_lookup_add(s0, tail, k@);
                if has_key(tail, k@) {
                    assert(has_key(sd.take(j as int), k@));
                    let w = key_index(sd.take(j as int), k@);
                    assert(sd.take(j as int)[w].0 == k@);
                    assert(sd[w].0 == sd[j as int].0);
                    assert(false);
                }
                assert(has_key(self.entries@, k@) == has_key(s0, k@));
                assert(sd.take(j + 1).drop_last() =~= sd.take(j as int));
                assert(sd.take(j + 1) =~= sd.take(j as int).push(sd[j as int]));
                Seq::lemma_filter_push(
                    sd.take(j as int),
                    sd[j as int],
                    |e: (Seq<char>, bool)| !has_key(s0, e.0),
                );
            }
            if fresh {
                self.entries.entries.push((k.clone(), true));
                proof {
                    assert(self.entries@ =~= (s0 + tail).push((k@, true)));
                    assert((k@, true) == sd[j as int]);
                    assert(self.entries@ =~= s0 + sd.take(j + 1).filter(
                        |e: (Seq<char>, bool)| !has_key(s0, e.0),
                    ));
                }
            } else {
                proof {
                    assert(self.entries@ =~= s0 + sd.take(j + 1).filter(
                        |e: (Seq<char>, bool)| !has_key(s0, e.0),
                    ));
                }
            }
            j = j + 1;
        }
        proof {
            assert(sd.take(n as int) =~= sd);
            lemma_merged_wf(s0, *category);
        }
    }

    /// Records a visibility choice for one field name; an unknown name is
    /// appended at the end with the chosen flag.
    pub fn set_visibility(&mut self, name: String, visible: bool)
        requires
            old(self).wf(),
        ensures
            final(self).wf(),
            has_key(old(self).entries@, name@) ==> final(self).entries@ == old(
                self,
            ).entries@.update(key_index(old(self).entries@, name@), (name@, visible)),
            !has_key(old(self).entries@, name@) ==> final(self).entries@ == old(
                self,
            ).entries@.push((name@, visible)),
    {
        self.entries.set(name, visible);
    }

    /// Replaces the whole recorded order and visibility in one step.
    pub fn set_order(&mut self, new_order: OrderedMap<bool>)
        requires
            new_order.wf(),
        ensures
            final(self).wf(),
            final(self).entries@ == new_order@,
    {
        self.entries = new_order;
    }

    /// The field names currently shown for a category: the recorded order,
    /// restricted to the category's fields, visible entries only.
    pub fn visible_and_ordered_fields(&self, category: &PartsCategory) -> (r: Vec<String>)
        requires
            self.wf(),
        ensures
            r@.map_values(|s: String| s@) == scoped(self.entries@, *category),
    {
        let seed = crate::schema::default_field_map(category);
        let n = self.entries.len();
        let mut out: Vec<String> = Vec::new();
        let mut i: usize = 0;
        let ghost s = self.entries@;
        while i < n
            invariant
                s == self.entries@,
                distinct_keys(s),
                n == s.len(),
                i <= n,
                seed@ == seed_map(*category),
                out@.map_values(|t: String| t@) == s.take(i as int).filter(
                    |e: (Seq<char>, bool)| has_key(seed_map(*category), e.0) && e.1,
                ).map_values(|e: (Seq<char>, bool)| e.0),
            decreases n - i,
        {
            let ghost prefix = out@.map_values(|t: String| t@);
            let k = self.entries.key_at(i);
            let vis = *self.entries.value_at(i);
            let within = seed.contains_key(k);
            proof {
                assert(s.take(i + 1).drop_last() =~= s.take(i as int));
                assert(s.take(i + 1) =~= s.take(i as int).push(s[i as int]));
                Seq::lemma_filter_push(
                    s.take(i as int),
                    s[i as int],
                    |e: (Seq<char>, bool)| has_key(seed_map(*category), e.0) && e.1,
                );
            }
            if within && vis {
                out.push(k.clone());
                proof {
                    assert(out@.map_values(|t: String| t@) =~= prefix.push(s[i as int].0));
                    assert(s.take(i as int).filter(
                        |e: (Seq<char>, bool)| has_key(seed_map(*category), e.0) && e.1,
                    ).push(s[i as int]).map_values(|e: (Seq<char>, bool)| e.0) =~= prefix.push(
                        s[i as int].0,
                    ));
                }
            }
            i = i + 1;
        }
        proof {
            assert(s.take(n as int) =~= s);
        }
        out
    }
}

/// A merge keeps the names distinct.
pub proof fn lemma_merged_wf(s: Seq<(Seq<char>, bool)>, c: PartsCategory)
    requires
        distinct_keys(s),
    ensures
        distinct_keys(merged(s, c)),
        forall|k: Seq<char>|
            has_key(s, k) ==> #[trigger] lookup(merged(s, c), k) == lookup(s, k),
{
    lemma_ord_seed_names(c);
    let pred = |e: (Seq<char>, bool)| !has_key(s, e.0);
    let tail = ord_seed(c).filter(pred);
    lemma_filter_entries(ord_seed(c), pred);
    assert(distinct_keys(merged(s, c))) by {
        assert forall|p: int, q: int|
            0 <= p < q < merged(s, c).len() implies (#[trigger] merged(s, c)[p]).0 != (
        #[trigger] merged(s, c)[q]).0 by {
            if q < s.len() {
                assert(merged(s, c)[p] == s[p] && merged(s, c)[q] == s[q]);
            } else if p >= s.len() {
                assert(merged(s, c)[p] == tail[p - s.len()] && merged(s, c)[q] == tail[q
                    - s.len()]);
            } else {
                assert(merged(s, c)[p] == s[p] && merged(s, c)[q] == tail[q - s.len()]);
                let kq = tail[q - s.len()].0;
                assert(has_key(tail, kq)) by {
                    assert(tail[q - s.len()].0 == kq);
                }
                assert(!has_key(s, kq));
                if s[p].0 == kq {
                    assert(has_key(s, kq)) by {
                        assert(s[p].0 == kq);
                    }
                }
            }
        }
    }
    assert forall|k: Seq<char>| has_key(s, k) implies #[trigger] lookup(merged(s, c), k) == lookup(
        s,
        k,
    ) by {
        lemma_lookup_add(s, tail, k);
    }
}

/// Merging for a visited category and back for the home one changes nothing
/// in what the home category shows: every prior flag survives, and names
/// exclusive to the visited category stay out of the home category's view.
pub proof fn lemma_ordering_merge_round_trip(
    s: Seq<(Seq<char>, bool)>,
    home: PartsCategory,
    away: PartsCategory,
)
    requires
        distinct_keys(s),
        forall|j: int|
            0 <= j < seed_map(home).len() ==> has_key(s, (#[trigger] seed_map(home)[j]).0),
    ensures
        scoped(merged(merged(s, away), home), home) == scoped(s, home),
{
    lemma_ord_seed_names(away);
    lemma_ord_seed_names(home);
    lemma_merged_wf(s, away);
    let fresh_away = |e: (Seq<char>, bool)| !has_key(s, e.0);
    let t1 = ord_seed(away).filter(fresh_away);
    let m1 = merged(s, away);
    assert(m1 == s + t1);
    // the second merge appends nothing: every home name is already recorded
    let fresh_home = |e: (Seq<char>, bool)| !has_key(m1, e.0);
    assert forall|i: int| 0 <= i < ord_seed(home).len() implies !fresh_home(
        #[trigger] ord_seed(home)[i],
    ) by {
        assert(ord_seed(home)[i].0 == seed_map(home)[i].0);
        assert(has_key(s, seed_map(home)[i].0));
        lemma_lookup_add(s, t1, seed_map(home)[i].0);
    }
    lemma_filter_all_false(ord_seed(home), fresh_home);
    assert(merged(m1, home) =~= m1);
    // the away-only names fall outside the home category's view
    let show = |e: (Seq<char>, bool)| has_key(seed_map(home), e.0) && e.1;
    lemma_filter_entries(ord_seed(away), fresh_away);
    assert forall|i: int| 0 <= i < t1.len() implies !show(#[trigger] t1[i]) by {
        let kq = t1[i].0;
        assert(has_key(t1, kq)) by {
            assert(t1[i].0 == kq);
        }
        assert(!has_key(s, kq));
        if has_key(seed_map(home), kq) {
            let w = key_index(seed_map(home), kq);
            assert(seed_map(home)[w].0 == kq);
            assert(has_key(s, seed_map(home)[w].0));
        }
    }
    Seq::filter_distributes_over_add(s, t1, show);
    lemma_filter_all_false(t1, show);
    assert(m1.filter(show) =~= s.filter(show));
    assert(scoped(merged(merged(s, away), home), home) == scoped(m1, home)) by {
        assert(merged(m1, home) == m1);
    }
    assert(scoped(m1, home) == scoped(s, home)) by {
        assert(m1.filter(show) == s.filter(show));
    }
}

} // verus!
