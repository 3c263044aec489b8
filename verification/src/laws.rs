//! Cross-component laws of the category-switch differ: reconciling an edit
//! buffer away from its category and back restores it.

use vstd::prelude::*;
use crate::differ::{covers, lemma_seed_distinct, reconciled, seed_map, switched};
use crate::schema::part_idents;
use crate::text::spec_humanize;
use crate::model::PartsCategory;
use crate::ordmap::{
    distinct_keys, has_key, key_index, lemma_filter_all_false, lemma_filter_all_true,
    lemma_filter_entries,
};

verus! {

/// The head of the buffer edited away from home is the original buffer,
/// and it is exactly what the switch home keeps.
proof fn lemma_head_restored<T>(
    buf: Seq<(Seq<char>, T)>,
    sh: Seq<(Seq<char>, T)>,
    sa: Seq<(Seq<char>, T)>,
    edited: Seq<(Seq<char>, T)>,
)
    requires
        distinct_keys(buf),
        distinct_keys(sa),
        forall|i: int| 0 <= i < buf.len() ==> has_key(sh, (#[trigger] buf[i]).0),
        forall|j: int| 0 <= j < sh.len() ==> has_key(buf, (#[trigger] sh[j]).0),
        forall|j: int| 0 <= j < sh.len() ==> has_key(sa, (#[trigger] sh[j]).0),
        edited.len() == reconciled(buf, sa).len(),
        forall|i: int|
            0 <= i < edited.len() ==> (#[trigger] edited[i]).0 == reconciled(buf, sa)[i].0,
        forall|i: int|
            0 <= i < edited.len() && has_key(sh, (#[trigger] edited[i]).0) ==> edited[i]
                == reconciled(buf, sa)[i],
    ensures
        edited.filter(|e: (Seq<char>, T)| has_key(sh, e.0)) == buf,
        edited.take(buf.len() as int) == buf,
{
    let keep_away = |e: (Seq<char>, T)| has_key(sa, e.0);
    let fresh_away = |e: (Seq<char>, T)| !has_key(buf, e.0);
    let keep_home = |e: (Seq<char>, T)| has_key(sh, e.0);
    let fresh_home = |e: (Seq<char>, T)| !has_key(edited, e.0);
    lemma_filter_entries(sa, fresh_away);
    // the buffer survives the reconciliation against the wider seed
    // untouched, with the new names appended after it
    assert forall|i: int| 0 <= i < buf.len() implies keep_away(#[trigger] buf[i]) by {
        assert(has_key(sh, buf[i].0));
        let w = key_index(sh, buf[i].0);
        assert(sh[w].0 == buf[i].0);
        assert(has_key(sa, sh[w].0));
    }
    lemma_filter_all_true(buf, keep_away);
    let tail = sa.filter(fresh_away);
    let b1 = buf + tail;
    assert(reconciled(buf, sa) == b1);
    // the edited buffer splits the same way: its head is the original buffer
    assert(edited =~= edited.take(buf.len() as int) + edited.skip(buf.len() as int));
    let eh = edited.take(buf.len() as int);
    let et = edited.skip(buf.len() as int);
    assert(eh =~= buf) by {
        assert forall|i: int| 0 <= i < buf.len() implies eh[i] == buf[i] by {
            assert(edited[i].0 == b1[i].0);
            assert(b1[i] == buf[i]);
            assert(has_key(sh, buf[i].0));
            assert(edited[i] == b1[i]);
        }
    }
    // the appended names are exclusive to the wider seed, so reconciling
    // against the home seed drops them all
    assert forall|i: int| 0 <= i < et.len() implies !keep_home(#[trigger] et[i]) by {
        let p = buf.len() + i;
        assert(edited[p].0 == b1[p].0);
        assert(b1[p] == tail[i]);
        let tk = tail[i].0;
        assert(has_key(tail, tk)) by {
            assert(tail[i].0 == tk);
        }
        assert(sa[key_index(sa, tk)].0 == tk);
        assert(fresh_away(sa[key_index(sa, tk)]));
        assert(!has_key(buf, tk));
        if has_key(sh, et[i].0) {
            let w = key_index(sh, et[i].0);
            assert(sh[w].0 == et[i].0);
            assert(has_key(buf, sh[w].0));
        }
    }
    assert forall|i: int| 0 <= i < eh.len() implies keep_home(#[trigger] eh[i]) by {
        assert(eh[i] == buf[i]);
        assert(has_key(sh, buf[i].0));
    }
    Seq::filter_distributes_over_add(eh, et, keep_home);
    lemma_filter_all_true(eh, keep_home);
    lemma_filter_all_false(et, keep_home);
    assert(edited.filter(keep_home) == eh.filter(keep_home) + et.filter(keep_home));
    assert(eh.filter(keep_home) + et.filter(keep_home) =~= buf);
}

/// No seed entry needs reseeding: every seed name is already present.
proof fn lemma_no_reseed<T>(
    buf: Seq<(Seq<char>, T)>,
    sh: Seq<(Seq<char>, T)>,
    edited: Seq<(Seq<char>, T)>,
)
    requires
        forall|j: int| 0 <= j < sh.len() ==> has_key(buf, (#[trigger] sh[j]).0),
        buf.len() <= edited.len(),
        forall|i: int| 0 <= i < buf.len() ==> #[trigger] edited[i] == buf[i],
    ensures
        sh.filter(|e: (Seq<char>, T)| !has_key(edited, e.0)) == Seq::<(Seq<char>, T)>::empty(),
{
    let fresh_home = |e: (Seq<char>, T)| !has_key(edited, e.0);
    assert forall|j: int| 0 <= j < sh.len() implies !fresh_home(#[trigger] sh[j]) by {
        let w = key_index(buf, sh[j].0);
        assert(buf[w].0 == sh[j].0);
        assert(edited[w] == buf[w]);
        assert(has_key(edited, sh[j].0)) by {
            assert(edited[w].0 == sh[j].0);
        }
    }
    lemma_filter_all_false(sh, fresh_home);
}

/// Reconciling against a wider seed and then against the home seed again
/// restores the buffer exactly, provided the buffer's names are the home
/// seed's names, every home name exists in the wider seed, and the edits
/// made in between touched no home field.
proof fn lemma_restore_after_excursion<T>(
    buf: Seq<(Seq<char>, T)>,
    sh: Seq<(Seq<char>, T)>,
    sa: Seq<(Seq<char>, T)>,
    edited: Seq<(Seq<char>, T)>,
)
    requires
        distinct_keys(buf),
        distinct_keys(sa),
        forall|i: int| 0 <= i < buf.len() ==> has_key(sh, (#[trigger] buf[i]).0),
        forall|j: int| 0 <= j < sh.len() ==> has_key(buf, (#[trigger] sh[j]).0),
        forall|j: int| 0 <= j < sh.len() ==> has_key(sa, (#[trigger] sh[j]).0),
        edited.len() == reconciled(buf, sa).len(),
        forall|i: int|
            0 <= i < edited.len() ==> (#[trigger] edited[i]).0 == reconciled(buf, sa)[i].0,
        forall|i: int|
            0 <= i < edited.len() && has_key(sh, (#[trigger] edited[i]).0) ==> edited[i]
                == reconciled(buf, sa)[i],
    ensures
        reconciled(edited, sh) == buf,
{
    lemma_head_restored(buf, sh, sa, edited);
    assert(buf.len() <= edited.len()) by {
        assert(edited.take(buf.len() as int).len() == buf.len());
    }
    assert forall|i: int| 0 <= i < buf.len() implies #[trigger] edited[i] == buf[i] by {
        assert(edited.take(buf.len() as int)[i] == buf[i]);
    }
    lemma_no_reseed(buf, sh, edited);
    assert(reconciled(edited, sh) =~= buf);
}

/// Switching away from a home category and back restores the buffer
/// exactly, provided the home category's field names all exist in the
/// visited category too, and the edits made while away touched no home
/// field. Fields exclusive to the visited category are discarded on the way
/// back.
pub proof fn lemma_switch_round_trip(
    buf: Seq<(Seq<char>, Seq<char>)>,
    home: PartsCategory,
    away: PartsCategory,
    edited: Seq<(Seq<char>, Seq<char>)>,
)
    requires
        distinct_keys(buf),
        covers(buf, home),
        forall|j: int|
            0 <= j < seed_map(home).len() ==> has_key(
                seed_map(away),
                (#[trigger] seed_map(home)[j]).0,
            ),
        edited.len() == switched(buf, away).len(),
        forall|i: int|
            0 <= i < edited.len() ==> (#[trigger] edited[i]).0 == switched(buf, away)[i].0,
        forall|i: int|
            0 <= i < edited.len() && has_key(seed_map(home), (#[trigger] edited[i]).0)
                ==> edited[i] == switched(buf, away)[i],
    ensures
        switched(edited, home) == buf,
{
    lemma_seed_distinct(away);
    lemma_restore_after_excursion(buf, seed_map(home), seed_map(away), edited);
}


/// Any seed map covers its own category: its names are exactly the
/// category's field names, so a buffer holding them switches to the same
/// category without change.
pub proof fn lemma_seed_covers(c: PartsCategory)
    ensures
        covers(seed_map(c), c),
{
    let s = seed_map(c);
    assert forall|i: int| 0 <= i < s.len() implies has_key(s, (#[trigger] s[i]).0) by {
        assert(s[i].0 == s[i].0);
    }
}

/// The base field names appear in every category's seed map: they are its
/// first entries. A buffer of a part's base fields therefore survives an
/// excursion into any category.
pub proof fn lemma_base_names_in_every_category(c: PartsCategory)
    ensures
        forall|j: int|
            0 <= j < seed_map(PartsCategory::Basic).len() ==> has_key(
                seed_map(c),
                (#[trigger] seed_map(PartsCategory::Basic)[j]).0,
            ),
{
    let sb = seed_map(PartsCategory::Basic);
    let sc = seed_map(c);
    assert forall|j: int| 0 <= j < sb.len() implies has_key(sc, (#[trigger] sb[j]).0) by {
        assert(part_idents(PartsCategory::Basic)[j] == crate::schema::base_idents()[j]);
        assert(part_idents(c)[j] == crate::schema::base_idents()[j]);
        assert(sb[j].0 == spec_humanize(part_idents(PartsCategory::Basic)[j]));
        assert(sc[j].0 == sb[j].0);
        assert(has_key(sc, sc[j].0));
    }
}

} // verus!
