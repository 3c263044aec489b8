//! The schema tables: each record shape lists its fields in declaration
//! order, with each field's identifier and primitive kind. The property
//! extractor renders any record into an ordered name-to-display-string map
//! against these tables, and the coercer parses such a map back against them.

use vstd::prelude::*;
use crate::model::{CPUProperties, DBPartProps, PartsCategory};
use crate::ordmap::{distinct_keys, OrderedMap};
use crate::text::{
    bool_to_string, humanize_field, spec_bool_string, spec_humanize, spec_uint_string,
    uint_to_string, wf_ident,
};

verus! {

/// The primitive kind of a field, read off its default value's type: a
/// boolean token, an unsigned decimal integer, decimal numeric text, or free
/// text.
#[derive(Clone, Copy, Debug, PartialEq, Eq, Structural)]
pub enum FieldKind {
    Bool,
    UInt,
    Decimal,
    Text,
}

// --- the tables, in declaration order ---

/// The identifiers of the base fields every part carries.
pub open spec fn base_idents() -> Seq<Seq<char>> {
    seq!["name"@, "image_url"@, "model"@, "manufactuer"@, "release_date"@, "rating"@]
}

/// The kinds of the base fields.
pub open spec fn base_kinds() -> Seq<FieldKind> {
    seq![
        FieldKind::Text,
        FieldKind::Text,
        FieldKind::Text,
        FieldKind::Text,
        FieldKind::Text,
        FieldKind::Decimal,
    ]
}

/// The display strings of a part record's base fields.
pub open spec fn base_values(p: DBPartProps) -> Seq<Seq<char>> {
    seq![p.name@, p.image_url@, p.model@, p.manufactuer@, p.release_date@, p.rating.0@]
}

/// The identifiers of the CPU category's fields.
pub open spec fn cpu_idents() -> Seq<Seq<char>> {
    seq![
        "cores"@,
        "threads"@,
        "max_frequency"@,
        "base_frequency"@,
        "max_tdp"@,
        "base_tdp"@,
        "cache"@,
        "max_ram_size"@,
        "max_memory_channels"@,
        "ecc_memory_supported"@,
        "max_pcie_lanes"@,
        "max_supported_pcie_version"@,
        "socket"@,
        "max_temperature"@,
    ]
}

/// The kinds of the CPU category's fields.
pub open spec fn cpu_kinds() -> Seq<FieldKind> {
    seq![
        FieldKind::UInt,
        FieldKind::UInt,
        FieldKind::Text,
        FieldKind::Text,
        FieldKind::Text,
        FieldKind::Text,
        FieldKind::Text,
        FieldKind::Text,
        FieldKind::UInt,
        FieldKind::Bool,
        FieldKind::UInt,
        FieldKind::Text,
        FieldKind::Text,
        FieldKind::Text,
    ]
}

/// The display strings of a CPU property record's fields.
pub open spec fn cpu_values(c: CPUProperties) -> Seq<Seq<char>> {
    seq![
        spec_uint_string(c.cores as int),
        spec_uint_string(c.threads as int),
        c.max_frequency@,
        c.base_frequency@,
        c.max_tdp@,
        c.base_tdp@,
        c.cache@,
        c.max_ram_size@,
        spec_uint_string(c.max_memory_channels as int),
        spec_bool_string(c.ecc_memory_supported),
        spec_uint_string(c.max_pcie_lanes as int),
        c.max_supported_pcie_version@,
        c.socket@,
        c.max_temperature@,
    ]
}

/// The identifiers of a category's extra fields.
pub open spec fn category_idents(c: PartsCategory) -> Seq<Seq<char>> {
    match c {
        PartsCategory::Basic => Seq::empty(),
        PartsCategory::CPU(_) => cpu_idents(),
    }
}

/// The kinds of a category's extra fields.
pub open spec fn category_kinds(c: PartsCategory) -> Seq<FieldKind> {
    match c {
        PartsCategory::Basic => Seq::empty(),
        PartsCategory::CPU(_) => cpu_kinds(),
    }
}

/// The display strings of a category's extra fields.
pub open spec fn category_values(c: PartsCategory) -> Seq<Seq<char>> {
    match c {
        PartsCategory::Basic => Seq::empty(),
        PartsCategory::CPU(props) => cpu_values(props),
    }
}

/// The identifiers of a part's flattened field set: the base fields followed
/// by the active category's fields. The category tag itself is carried
/// structurally and is no flat field.
pub open spec fn part_idents(c: PartsCategory) -> Seq<Seq<char>> {
    base_idents() + category_idents(c)
}

/// The kinds of a part's flattened field set.
pub open spec fn part_kinds(c: PartsCategory) -> Seq<FieldKind> {
    base_kinds() + category_kinds(c)
}

/// The display strings of a part's flattened field set.
pub open spec fn part_values(p: DBPartProps) -> Seq<Seq<char>> {
    base_values(p) + category_values(p.category)
}

/// The extraction of a record: each identifier humanized and paired with its
/// display string, in declaration order.
pub open spec fn extraction_of(ids: Seq<Seq<char>>, vals: Seq<Seq<char>>) -> Seq<
    (Seq<char>, Seq<char>),
> {
    Seq::new(ids.len(), |i: int| (spec_humanize(ids[i]), vals[i]))
}

/// No two of the given identifiers coincide.
pub open spec fn distinct_seqs(s: Seq<Seq<char>>) -> bool {
    forall|i: int, j: int| 0 <= i < j < s.len() ==> s[i] != s[j]
}

// --- well-formedness of the schema ---

/// The base schema and every category schema together: every identifier is
/// well-formed and no two share a name. A name shared between the base
/// fields and a category's fields would silently lose data in the flattened
/// field set, so the absence of collisions is established here once and for
/// all, not assumed.
pub proof fn lemma_schema_idents()
    ensures
        forall|i: int|
            0 <= i < (base_idents() + cpu_idents()).len() ==> wf_ident(
                #[trigger] (base_idents() + cpu_idents())[i],
            ),
        distinct_seqs(base_idents() + cpu_idents()),
{
    reveal_strlit("name");
    reveal_strlit("image_url");
    reveal_strlit("model");
    reveal_strlit("manufactuer");
    reveal_strlit("release_date");
    reveal_strlit("rating");
    reveal_strlit("cores");
    reveal_strlit("threads");
    reveal_strlit("max_frequency");
    reveal_strlit("base_frequency");
    reveal_strlit("max_tdp");
    reveal_strlit("base_tdp");
    reveal_strlit("cache");
    reveal_strlit("max_ram_size");
    reveal_strlit("max_memory_channels");
    reveal_strlit("ecc_memory_supported");
    reveal_strlit("max_pcie_lanes");
    reveal_strlit("max_supported_pcie_version");
    reveal_strlit("socket");
    reveal_strlit("max_temperature");
    assert("name"@.len() == 4);
    assert("image_url"@.len() == 9);
    assert("model"@.len() == 5);
    assert("manufactuer"@.len() == 11);
    assert("release_date"@.len() == 12);
    assert("rating"@.len() == 6);
    assert("cores"@.len() == 5);
    assert("threads"@.len() == 7);
    assert("max_frequency"@.len() == 13);
    assert("base_frequency"@.len() == 14);
    assert("max_tdp"@.len() == 7);
    assert("base_tdp"@.len() == 8);
    assert("cache"@.len() == 5);
    assert("max_ram_size"@.len() == 12);
    assert("max_memory_channels"@.len() == 19);
    assert("ecc_memory_supported"@.len() == 20);
    assert("max_pcie_lanes"@.len() == 14);
    assert("max_supported_pcie_version"@.len() == 26);
    assert("socket"@.len() == 6);
    assert("max_temperature"@.len() == 15);
    assert("model"@[0] != "cores"@[0]);
    assert("model"@[0] != "cache"@[0]);
    assert("cores"@[1] != "cache"@[1]);
    assert("rating"@[0] != "socket"@[0]);
    assert("threads"@[0] != "max_tdp"@[0]);
    assert("release_date"@[0] != "max_ram_size"@[0]);
    assert("base_frequency"@[0] != "max_pcie_lanes"@[0]);
    let all = base_idents() + cpu_idents();
    assert(all.len() == 20);
    assert forall|i: int| 0 <= i < all.len() implies wf_ident(#[trigger] all[i]) by {
        assert(wf_ident("name"@));
        assert(wf_ident("image_url"@));
        assert(wf_ident("model"@));
        assert(wf_ident("manufactuer"@));
        assert(wf_ident("release_date"@));
        assert(wf_ident("rating"@));
        assert(wf_ident("cores"@));
        assert(wf_ident("threads"@));
        assert(wf_ident("max_frequency"@));
        assert(wf_ident("base_frequency"@));
        assert(wf_ident("max_tdp"@));
        assert(wf_ident("base_tdp"@));
        assert(wf_ident("cache"@));
        assert(wf_ident("max_ram_size"@));
        assert(wf_ident("max_memory_channels"@));
        assert(wf_ident("ecc_memory_supported"@));
        assert(wf_ident("max_pcie_lanes"@));
        assert(wf_ident("max_supported_pcie_version"@));
        assert(wf_ident("socket"@));
        assert(wf_ident("max_temperature"@));
    }
    assert forall|i: int, j: int| 0 <= i < j < all.len() implies all[i] != all[j] by {
        if all[i] == all[j] {
            assert(all[i].len() == all[j].len());
        }
    }
}

/// Every identifier of a part's flattened field set is well-formed, and no
/// two of them coincide, whatever the active category.
pub proof fn lemma_part_idents_wf(c: PartsCategory)
    ensures
        forall|i: int|
            0 <= i < part_idents(c).len() ==> wf_ident(#[trigger] part_idents(c)[i]),
        distinct_seqs(part_idents(c)),
{
    lemma_schema_idents();
    let all = base_idents() + cpu_idents();
    let ids = part_idents(c);
    assert forall|i: int| 0 <= i < ids.len() implies wf_ident(#[trigger] ids[i]) by {
        assert(ids[i] == all[i]);
    }
    assert forall|i: int, j: int| 0 <= i < j < ids.len() implies ids[i] != ids[j] by {
        assert(ids[i] == all[i] && ids[j] == all[j]);
    }
}

/// The humanized names of a part's flattened field set are pairwise
/// distinct.
pub proof fn lemma_part_names_distinct(c: PartsCategory)
    ensures
        distinct_seqs(part_idents(c).map_values(|s: Seq<char>| spec_humanize(s))),
{
    lemma_part_idents_wf(c);
    let ids = part_idents(c);
    let names = ids.map_values(|s: Seq<char>| spec_humanize(s));
    assert forall|i: int, j: int| 0 <= i < j < names.len() implies names[i] != names[j] by {
        assert(names[i] == spec_humanize(ids[i]));
        assert(names[j] == spec_humanize(ids[j]));
        if names[i] == names[j] {
            crate::text::lemma_humanize_injective(ids[i], ids[j]);
        }
    }
}

// --- the property extractor ---

fn push_base_fields(p: &DBPartProps, v: &mut Vec<(String, String)>)
    ensures
        final(v)@.len() == old(v)@.len() + 6,
        forall|i: int| 0 <= i < old(v)@.len() ==> final(v)@[i] == #[trigger] old(v)@[i],
        forall|i: int|
            old(v)@.len() <= i < final(v)@.len() ==> (#[trigger] final(v)@[i]).0@ == spec_humanize(
                base_idents()[i - old(v)@.len()],
            ) && final(v)@[i].1@ == base_values(*p)[i - old(v)@.len()],
{
    v.push((humanize_field("name"), p.name.clone()));
    v.push((humanize_field("image_url"), p.image_url.clone()));
    v.push((humanize_field("model"), p.model.clone()));
    v.push((humanize_field("manufactuer"), p.manufactuer.clone()));
    v.push((humanize_field("release_date"), p.release_date.clone()));
    v.push((humanize_field("rating"), p.rating.0.clone()));
}

fn push_cpu_fields(c: &CPUProperties, v: &mut Vec<(String, String)>)
    ensures
        final(v)@.len() == old(v)@.len() + 14,
        forall|i: int| 0 <= i < old(v)@.len() ==> final(v)@[i] == #[trigger] old(v)@[i],
        forall|i: int|
            old(v)@.len() <= i < final(v)@.len() ==> (#[trigger] final(v)@[i]).0@ == spec_humanize(
                cpu_idents()[i - old(v)@.len()],
            ) && final(v)@[i].1@ == cpu_values(*c)[i - old(v)@.len()],
{
    v.push((humanize_field("cores"), uint_to_string(c.cores)));
    v.push((humanize_field("threads"), uint_to_string(c.threads)));
    v.push((humanize_field("max_frequency"), c.max_frequency.clone()));
    v.push((humanize_field("base_frequency"), c.base_frequency.clone()));
    v.push((humanize_field("max_tdp"), c.max_tdp.clone()));
    v.push((humanize_field("base_tdp"), c.base_tdp.clone()));
    v.push((humanize_field("cache"), c.cache.clone()));
    v.push((humanize_field("max_ram_size"), c.max_ram_size.clone()));
    v.push((humanize_field("max_memory_channels"), uint_to_string(c.max_memory_channels)));
    v.push((humanize_field("ecc_memory_supported"), bool_to_string(c.ecc_memory_supported)));
    v.push((humanize_field("max_pcie_lanes"), uint_to_string(c.max_pcie_lanes)));
    v.push((humanize_field("max_supported_pcie_version"), c.max_supported_pcie_version.clone()));
    v.push((humanize_field("socket"), c.socket.clone()));
    v.push((humanize_field("max_temperature"), c.max_temperature.clone()));
}

/// Extracts a part record into its flattened, ordered field map: the base
/// fields followed by the active category's fields, each display name paired
/// with the field's display string. Extraction never fails.
pub fn part_props_get_properties_as_map(props: &DBPartProps) -> (m: OrderedMap<String>)
    ensures
        m.wf(),
        m@ == extraction_of(part_idents(props.category), part_values(*props)),
{
    let mut v: Vec<(String, String)> = Vec::new();
    push_base_fields(props, &mut v);
    let ghost v1 = v@;
    match &props.category {
        PartsCategory::Basic => {},
        PartsCategory::CPU(c) => {
            push_cpu_fields(c, &mut v);
        },
    }
    let ghost ve = v@;
    let m = OrderedMap { entries: v };
    proof {
        let ids = part_idents(props.category);
        let vals = part_values(*props);
        assert forall|i: int| 0 <= i < m@.len() implies #[trigger] m@[i] == (
            spec_humanize(ids[i]),
            vals[i],
        ) by {
            assert(m@[i] == (ve[i].0@, ve[i].1@));
            if i < 6 {
                assert(v1[i].0@ == spec_humanize(base_idents()[i]));
                assert(v1[i].1@ == base_values(*props)[i]);
                assert(ve[i] == v1[i]);
                assert(ids[i] == base_idents()[i]);
                assert(vals[i] == base_values(*props)[i]);
            } else {
                assert(ve[i].0@ == spec_humanize(cpu_idents()[i - 6]));
                assert(ve[i].1@ == cpu_values(props.category->CPU_0)[i - 6]);
                assert(ids[i] == category_idents(props.category)[i - 6]);
                assert(vals[i] == category_values(props.category)[i - 6]);
            }
        }
        assert(m@ =~= extraction_of(ids, vals));
        lemma_part_names_distinct(props.category);
        let names = ids.map_values(|s: Seq<char>| spec_humanize(s));
        assert forall|p2: int, q: int| 0 <= p2 < q < m@.len() implies (#[trigger] m@[p2]).0 != (
        #[trigger] m@[q]).0 by {
            assert(names[p2] == spec_humanize(ids[p2]) && names[q] == spec_humanize(ids[q]));
        }
    }
    m
}

/// The display strings of the zero-valued base fields.
pub open spec fn default_base_values() -> Seq<Seq<char>> {
    seq![
        Seq::<char>::empty(),
        Seq::<char>::empty(),
        Seq::<char>::empty(),
        Seq::<char>::empty(),
        Seq::<char>::empty(),
        "0"@,
    ]
}

/// Extracts the field map a category switch reseeds from: zero-valued base
/// fields together with the given category instance's own values.
pub fn default_field_map(category: &PartsCategory) -> (m: OrderedMap<String>)
    ensures
        m.wf(),
        m@ == extraction_of(
            part_idents(*category),
            default_base_values() + category_values(*category),
        ),
{
    let base = DBPartProps::default();
    let props = DBPartProps { category: category.duplicate(), ..base };
    let m = part_props_get_properties_as_map(&props);
    proof {
        assert(base_values(props) =~= default_base_values());
        assert(part_values(props) == default_base_values() + category_values(*category));
    }
    m
}

} // verus!
