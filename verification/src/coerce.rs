//! The value coercer: turns a final edit buffer back into a typed part
//! record. Each field's target type is read off the schema tables; the
//! field's display string is trimmed and parsed for that type, and the first
//! field that fails aborts the whole coercion with a field-scoped error.

use vstd::prelude::*;
use crate::decimal::decimal_text_ok;
use crate::model::{CPUProperties, DBPartProps, PartsCategory, StringenFloat};
use crate::ordmap::{distinct_keys, has_key, key_index, lookup, OrderedMap};
use crate::schema::{
    cpu_idents, cpu_kinds, part_idents, part_kinds, FieldKind,
};
use crate::text::{
    bool_text_ok, parse_bool, parse_uint, spec_digits_val, spec_humanize, spec_trim, trim_text,
    uint_text_ok,
};

verus! {

/// A field-scoped coercion failure: the display name of the offending field
/// and the primitive kind its value was expected to have.
#[derive(Clone, Debug)]
pub struct CoerceError {
    pub field: String,
    pub expected: FieldKind,
}

/// The raw display string the buffer holds for a field identifier.
pub open spec fn raw_val(m: Seq<(Seq<char>, Seq<char>)>, ident: Seq<char>) -> Seq<char> {
    match lookup(m, spec_humanize(ident)) {
        Some(v) => v,
        None => Seq::empty(),
    }
}

/// The buffer's display string for a field, trimmed of surrounding
/// whitespace.
pub open spec fn tval(m: Seq<(Seq<char>, Seq<char>)>, ident: Seq<char>) -> Seq<char> {
    spec_trim(raw_val(m, ident))
}

/// Whether trimmed text parses for the given primitive kind. Free text
/// always does.
pub open spec fn kind_ok(kind: FieldKind, t: Seq<char>) -> bool {
    match kind {
        FieldKind::Bool => bool_text_ok(t),
        FieldKind::UInt => uint_text_ok(t),
        FieldKind::Decimal => decimal_text_ok(t),
        FieldKind::Text => true,
    }
}

/// A field coerces: the buffer holds its name and the trimmed value parses
/// for the field's kind.
pub open spec fn field_ok(
    m: Seq<(Seq<char>, Seq<char>)>,
    ident: Seq<char>,
    kind: FieldKind,
) -> bool {
    has_key(m, spec_humanize(ident)) && kind_ok(kind, tval(m, ident))
}

/// Every field of the category's flattened field set coerces.
pub open spec fn all_fields_ok(m: Seq<(Seq<char>, Seq<char>)>, c: PartsCategory) -> bool {
    forall|i: int|
        0 <= i < part_idents(c).len() ==> field_ok(
            m,
            #[trigger] part_idents(c)[i],
            part_kinds(c)[i],
        )
}

/// The error names the first field of the category's field set that fails
/// to coerce, with its expected kind.
pub open spec fn is_first_failure(
    m: Seq<(Seq<char>, Seq<char>)>,
    c: PartsCategory,
    e: CoerceError,
) -> bool {
    exists|i: int|
        {
            &&& 0 <= i < part_idents(c).len()
            &&& !field_ok(m, #[trigger] part_idents(c)[i], part_kinds(c)[i])
            &&& forall|j: int| 0 <= j < i ==> field_ok(m, #[trigger] part_idents(c)[j], part_kinds(c)[j])
            &&& e.field@ == spec_humanize(part_idents(c)[i])
            &&& e.expected == part_kinds(c)[i]
        }
}

fn take_field(b: &OrderedMap<String>, ident: &str, kind: FieldKind) -> (r: Result<
    String,
    CoerceError,
>)
    requires
        b.wf(),
    ensures
        r is Ok <==> has_key(b@, spec_humanize(ident@)),
        r is Ok ==> r.unwrap()@ == tval(b@, ident@),
        r is Err ==> r.unwrap_err().field@ == spec_humanize(ident@) && r.unwrap_err().expected
            == kind,
{
    let key = crate::text::humanize_field(ident);
    match b.get(&key) {
        Some(v) => Ok(trim_text(v.as_str())),
        None => Err(CoerceError { field: key, expected: kind }),
    }
}

fn take_text(b: &OrderedMap<String>, ident: &str) -> (r: Result<String, CoerceError>)
    requires
        b.wf(),
    ensures
        r is Ok <==> field_ok(b@, ident@, FieldKind::Text),
        r is Ok ==> r.unwrap()@ == tval(b@, ident@),
        r is Err ==> r.unwrap_err().field@ == spec_humanize(ident@) && r.unwrap_err().expected
            == FieldKind::Text,
{
    take_field(b, ident, FieldKind::Text)
}

fn take_uint(b: &OrderedMap<String>, ident: &str) -> (r: Result<u32, CoerceError>)
    requires
        b.wf(),
    ensures
        r is Ok <==> field_ok(b@, ident@, FieldKind::UInt),
        r is Ok ==> r.unwrap() == spec_digits_val(tval(b@, ident@)),
        r is Err ==> r.unwrap_err().field@ == spec_humanize(ident@) && r.unwrap_err().expected
            == FieldKind::UInt,
{
    match take_field(b, ident, FieldKind::UInt) {
        Ok(t) => match parse_uint(t.as_str()) {
            Some(n) => {
                proof {
                    crate::text::lemma_digits_val_nonneg(t@);
                }
                Ok(n)
            },
            None => Err(
                CoerceError {
                    field: crate::text::humanize_field(ident),
                    expected: FieldKind::UInt,
                },
            ),
        },
        Err(e) => Err(e),
    }
}

fn take_bool(b: &OrderedMap<String>, ident: &str) -> (r: Result<bool, CoerceError>)
    requires
        b.wf(),
    ensures
        r is Ok <==> field_ok(b@, ident@, FieldKind::Bool),
        r is Ok ==> r.unwrap() == (tval(b@, ident@) == "true"@),
        r is Err ==> r.unwrap_err().field@ == spec_humanize(ident@) && r.unwrap_err().expected
            == FieldKind::Bool,
{
    match take_field(b, ident, FieldKind::Bool) {
        Ok(t) => match parse_bool(t.as_str()) {
            Some(v) => Ok(v),
            None => Err(
                CoerceError {
                    field: crate::text::humanize_field(ident),
                    expected: FieldKind::Bool,
                },
            ),
        },
        Err(e) => Err(e),
    }
}

fn take_decimal(b: &OrderedMap<String>, ident: &str) -> (r: Result<StringenFloat, CoerceError>)
    requires
        b.wf(),
    ensures
        r is Ok <==> field_ok(b@, ident@, FieldKind::Decimal),
        r is Ok ==> r.unwrap().0@ == tval(b@, ident@) && r.unwrap().wf(),
        r is Err ==> r.unwrap_err().field@ == spec_humanize(ident@) && r.unwrap_err().expected
            == FieldKind::Decimal,
{
    match take_field(b, ident, FieldKind::Decimal) {
        Ok(t) => match StringenFloat::from_text(t) {
            Some(v) => Ok(v),
            None => Err(
                CoerceError {
                    field: crate::text::humanize_field(ident),
                    expected: FieldKind::Decimal,
                },
            ),
        },
        Err(e) => Err(e),
    }
}

/// The coerced CPU property record: each field parsed from the buffer's
/// trimmed display strings.
pub open spec fn coerced_cpu_props(m: Seq<(Seq<char>, Seq<char>)>, c: CPUProperties) -> bool {
    &&& c.cores == spec_digits_val(tval(m, "cores"@))
    &&& c.threads == spec_digits_val(tval(m, "threads"@))
    &&& c.max_frequency@ == tval(m, "max_frequency"@)
    &&& c.base_frequency@ == tval(m, "base_frequency"@)
    &&& c.max_tdp@ == tval(m, "max_tdp"@)
    &&& c.base_tdp@ == tval(m, "base_tdp"@)
    &&& c.cache@ == tval(m, "cache"@)
    &&& c.max_ram_size@ == tval(m, "max_ram_size"@)
    &&& c.max_memory_channels == spec_digits_val(tval(m, "max_memory_channels"@))
    &&& c.ecc_memory_supported == (tval(m, "ecc_memory_supported"@) == "true"@)
    &&& c.max_pcie_lanes == spec_digits_val(tval(m, "max_pcie_lanes"@))
    &&& c.max_supported_pcie_version@ == tval(m, "max_supported_pcie_version"@)
    &&& c.socket@ == tval(m, "socket"@)
    &&& c.max_temperature@ == tval(m, "max_temperature"@)
}

/// The coerced part record: base fields parsed from the buffer, the category
/// carrying its own coerced properties.
pub open spec fn coerced_part(
    m: Seq<(Seq<char>, Seq<char>)>,
    c: PartsCategory,
    p: DBPartProps,
) -> bool {
    &&& p.name@ == tval(m, "name"@)
    &&& p.image_url@ == tval(m, "image_url"@)
    &&& p.model@ == tval(m, "model"@)
    &&& p.manufactuer@ == tval(m, "manufactuer"@)
    &&& p.release_date@ == tval(m, "release_date"@)
    &&& p.rating.0@ == tval(m, "rating"@)
    &&& match c {
        PartsCategory::Basic => p.category is Basic,
        PartsCategory::CPU(_) => p.category is CPU && coerced_cpu_props(m, p.category->CPU_0),
    }
}

fn coerce_cpu_props(b: &OrderedMap<String>) -> (r: Result<CPUProperties, CoerceError>)
    requires
        b.wf(),
    ensures
        r is Ok <==> (forall|i: int|
            0 <= i < cpu_idents().len() ==> field_ok(b@, #[trigger] cpu_idents()[i], cpu_kinds()[i])),
        r is Ok ==> coerced_cpu_props(b@, r.unwrap()),
        r is Err ==> exists|i: int|
            {
                &&& 0 <= i < cpu_idents().len()
                &&& !field_ok(b@, #[trigger] cpu_idents()[i], cpu_kinds()[i])
                &&& forall|j: int|
                    0 <= j < i ==> field_ok(b@, #[trigger] cpu_idents()[j], cpu_kinds()[j])
                &&& r.unwrap_err().field@ == spec_humanize(cpu_idents()[i])
                &&& r.unwrap_err().expected == cpu_kinds()[i]
            },
{
    let cores = match take_uint(b, "cores") {
        Ok(v) => v,
        Err(e) => {
            proof {
                assert(!field_ok(b@, cpu_idents()[0], cpu_kinds()[0]));
            }
            return Err(e);
        },
    };
    let threads = match take_uint(b, "threads") {
        Ok(v) => v,
        Err(e) => {
            proof {
                assert(!field_ok(b@, cpu_idents()[1], cpu_kinds()[1]));
            }
            return Err(e);
        },
    };
    let max_frequency = match take_text(b, "max_frequency") {
        Ok(v) => v,
        Err(e) => {
            proof {
                assert(!field_ok(b@, cpu_idents()[2], cpu_kinds()[2]));
            }
            return Err(e);
        },
    };
    let base_frequency = match take_text(b, "base_frequency") {
        Ok(v) => v,
        Err(e) => {
            proof {
                assert(!field_ok(b@, cpu_idents()[3], cpu_kinds()[3]));
            }
            return Err(e);
        },
    };
    let max_tdp = match take_text(b, "max_tdp") {
        Ok(v) => v,
        Err(e) => {
            proof {
                assert(!field_ok(b@, cpu_idents()[4], cpu_kinds()[4]));
            }
            return Err(e);
        },
    };
    let base_tdp = match take_text(b, "base_tdp") {
        Ok(v) => v,
        Err(e) => {
            proof {
                assert(!field_ok(b@, cpu_idents()[5], cpu_kinds()[5]));
            }
            return Err(e);
        },
    };
    let cache = match take_text(b, "cache") {
        Ok(v) => v,
        Err(e) => {
            proof {
                assert(!field_ok(b@, cpu_idents()[6], cpu_kinds()[6]));
            }
            return Err(e);
        },
    };
    let max_ram_size = match take_text(b, "max_ram_size") {
        Ok(v) => v,
        Err(e) => {
            proof {
                assert(!field_ok(b@, cpu_idents()[7], cpu_kinds()[7]));
            }
            return Err(e);
        },
    };
    let max_memory_channels = match take_uint(b, "max_memory_channels") {
        Ok(v) => v,
        Err(e) => {
            proof {
                assert(!field_ok(b@, cpu_idents()[8], cpu_kinds()[8]));
            }
            return Err(e);
        },
    };
    let ecc_memory_supported = match take_bool(b, "ecc_memory_supported") {
        Ok(v) => v,
        Err(e) => {
            proof {
                assert(!field_ok(b@, cpu_idents()[9], cpu_kinds()[9]));
            }
            return Err(e);
        },
    };
    let max_pcie_lanes = match take_uint(b, "max_pcie_lanes") {
        Ok(v) => v,
        Err(e) => {
            proof {
                assert(!field_ok(b@, cpu_idents()[10], cpu_kinds()[10]));
            }
            return Err(e);
        },
    };
    let max_supported_pcie_version = match take_text(b, "max_supported_pcie_version") {
        Ok(v) => v,
        Err(e) => {
            proof {
                assert(!field_ok(b@, cpu_idents()[11], cpu_kinds()[11]));
            }
            return Err(e);
        },
    };
    let socket = match take_text(b, "socket") {
        Ok(v) => v,
        Err(e) => {
            proof {
                assert(!field_ok(b@, cpu_idents()[12], cpu_kinds()[12]));
            }
            return Err(e);
        },
    };
    let max_temperature = match take_text(b, "max_temperature") {
        Ok(v) => v,
        Err(e) => {
            proof {
                assert(!field_ok(b@, cpu_idents()[13], cpu_kinds()[13]));
            }
            return Err(e);
        },
    };
    let c = CPUProperties {
        cores,
        threads,
        max_frequency,
        base_frequency,
        max_tdp,
        base_tdp,
        cache,
        max_ram_size,
        max_memory_channels,
        ecc_memory_supported,
        max_pcie_lanes,
        max_supported_pcie_version,
        socket,
        max_temperature,
    };
    proof {
        assert forall|i: int|
            0 <= i < cpu_idents().len() implies field_ok(
            b@,
            #[trigger] cpu_idents()[i],
            cpu_kinds()[i],
        ) by {
            if i == 0 {
            } else if i == 1 {
            } else if i == 2 {
            } else if i == 3 {
            } else if i == 4 {
            } else if i == 5 {
            } else if i == 6 {
            } else if i == 7 {
            } else if i == 8 {
            } else if i == 9 {
            } else if i == 10 {
            } else if i == 11 {
            } else if i == 12 {
            } else {
            }
        }
    }
    Ok(c)
}

/// Coerces a final edit buffer into a typed part record for the selected
/// category. Succeeds exactly when every field of the category's flattened
/// field set is present and its trimmed display string parses for the
/// field's kind; otherwise reports the first failing field with its expected
/// kind, and produces no record.
pub fn coerce(buffer: &OrderedMap<String>, category: &PartsCategory) -> (r: Result<
    DBPartProps,
    CoerceError,
>)
    requires
        buffer.wf(),
    ensures
        r is Ok <==> all_fields_ok(buffer@, *category),
        r is Ok ==> coerced_part(buffer@, *category, r.unwrap()),
        r is Ok ==> r.unwrap().rating.wf(),
        r is Err ==> is_first_failure(buffer@, *category, r.unwrap_err()),
{
    let name = match take_text(buffer, "name") {
        Ok(v) => v,
        Err(e) => {
            proof {
                lemma_first_failure(buffer@, *category, 0);
            }
            return Err(e);
        },
    };
    let image_url = match take_text(buffer, "image_url") {
        Ok(v) => v,
        Err(e) => {
            proof {
                lemma_first_failure(buffer@, *category, 1);
            }
            return Err(e);
        },
    };
    let model = match take_text(buffer, "model") {
        Ok(v) => v,
        Err(e) => {
            proof {
                lemma_first_failure(buffer@, *category, 2);
            }
            return Err(e);
        },
    };
    let manufactuer = match take_text(buffer, "manufactuer") {
        Ok(v) => v,
        Err(e) => {
            proof {
                lemma_first_failure(buffer@, *category, 3);
            }
            return Err(e);
        },
    };
    let release_date = match take_text(buffer, "release_date") {
        Ok(v) => v,
        Err(e) => {
            proof {
                lemma_first_failure(buffer@, *category, 4);
            }
            return Err(e);
        },
    };
    let rating = match take_decimal(buffer, "rating") {
        Ok(v) => v,
        Err(e) => {
            proof {
                lemma_first_failure(buffer@, *category, 5);
            }
            return Err(e);
        },
    };
    let category_out: PartsCategory = match category {
        PartsCategory::Basic => PartsCategory::Basic,
        PartsCategory::CPU(_) => match coerce_cpu_props(buffer) {
            Ok(c) => PartsCategory::CPU(c),
            Err(e) => {
                proof {
                    let k = choose|k: int|
                        {
                            &&& 0 <= k < cpu_idents().len()
                            &&& !field_ok(buffer@, #[trigger] cpu_idents()[k], cpu_kinds()[k])
                            &&& forall|j: int|
                                0 <= j < k ==> field_ok(
                                    buffer@,
                                    #[trigger] cpu_idents()[j],
                                    cpu_kinds()[j],
                                )
                            &&& e.field@ == spec_humanize(cpu_idents()[k])
                            &&& e.expected == cpu_kinds()[k]
                        };
                    assert(part_idents(*category)[6 + k] == cpu_idents()[k]);
                    assert(part_kinds(*category)[6 + k] == cpu_kinds()[k]);
                    assert(!field_ok(buffer@, part_idents(*category)[6 + k], part_kinds(*category)[6
                        + k]));
                    assert forall|j: int| 0 <= j < 6 + k implies field_ok(
                        buffer@,
                        #[trigger] part_idents(*category)[j],
                        part_kinds(*category)[j],
                    ) by {
                        if j < 6 {
                            lemma_base_field_ok(buffer@, *category, j);
                        } else {
                            assert(part_idents(*category)[j] == cpu_idents()[j - 6]);
                            assert(part_kinds(*category)[j] == cpu_kinds()[j - 6]);
                        }
                    }
                    assert(is_first_failure(buffer@, *category, e)) by {
                        assert(0 <= 6 + k < part_idents(*category).len());
                    }
                }
                return Err(e);
            },
        },
    };
    let p = DBPartProps {
        name,
        image_url,
        model,
        manufactuer,
        release_date,
        rating,
        category: category_out,
    };
    proof {
        assert forall|i: int|
            0 <= i < part_idents(*category).len() implies field_ok(
            buffer@,
            #[trigger] part_idents(*category)[i],
            part_kinds(*category)[i],
        ) by {
            if i < 6 {
                lemma_base_field_ok(buffer@, *category, i);
            } else {
                assert(part_idents(*category)[i] == cpu_idents()[i - 6]);
                assert(part_kinds(*category)[i] == cpu_kinds()[i - 6]);
            }
        }
    }
    Ok(p)
}

/// Bridges a base-field position of the flattened field set to its table
/// entry.
proof fn lemma_base_field_ok(m: Seq<(Seq<char>, Seq<char>)>, c: PartsCategory, i: int)
    requires
        0 <= i < 6,
    ensures
        part_idents(c)[i] == crate::schema::base_idents()[i],
        part_kinds(c)[i] == crate::schema::base_kinds()[i],
{
}

/// At a failing base field, every earlier base field having coerced makes it
/// the first failure of the flattened field set.
proof fn lemma_first_failure(m: Seq<(Seq<char>, Seq<char>)>, c: PartsCategory, i: int)
    requires
        0 <= i < 6,
    ensures
        part_idents(c)[i] == crate::schema::base_idents()[i],
        part_kinds(c)[i] == crate::schema::base_kinds()[i],
        forall|j: int|
            0 <= j < 6 ==> part_idents(c)[j] == crate::schema::base_idents()[j] && part_kinds(c)[j]
                == crate::schema::base_kinds()[j],
{
    assert forall|j: int|
        0 <= j < 6 implies part_idents(c)[j] == crate::schema::base_idents()[j] && part_kinds(c)[j]
        == crate::schema::base_kinds()[j] by {
        lemma_base_field_ok(m, c, j);
    }
}


/// In an extraction of a part's field set, each humanized identifier finds
/// exactly its own display string.
proof fn lemma_extraction_lookup(c: PartsCategory, vals: Seq<Seq<char>>)
    requires
        vals.len() == part_idents(c).len(),
    ensures
        forall|i: int|
            0 <= i < part_idents(c).len() ==> {
                let m = crate::schema::extraction_of(part_idents(c), vals);
                has_key(m, spec_humanize(#[trigger] part_idents(c)[i])) && lookup(
                    m,
                    spec_humanize(part_idents(c)[i]),
                ) == Some(vals[i])
            },
{
    let ids = part_idents(c);
    let m = crate::schema::extraction_of(ids, vals);
    crate::schema::lemma_part_names_distinct(c);
    let names = ids.map_values(|t: Seq<char>| spec_humanize(t));
    assert(distinct_keys(m)) by {
        assert forall|p: int, q: int| 0 <= p < q < m.len() implies (#[trigger] m[p]).0 != (
        #[trigger] m[q]).0 by {
            assert(names[p] == m[p].0 && names[q] == m[q].0);
        }
    }
    assert forall|i: int| 0 <= i < ids.len() implies {
        has_key(m, spec_humanize(#[trigger] ids[i])) && lookup(m, spec_humanize(ids[i])) == Some(
            vals[i],
        )
    } by {
        assert(m[i].0 == spec_humanize(ids[i]));
        assert(has_key(m, spec_humanize(ids[i])));
        assert(key_index(m, spec_humanize(ids[i])) == i) by {
            let w = key_index(m, spec_humanize(ids[i]));
            if w != i {
                assert(m[w].0 == spec_humanize(ids[i]));
            }
        }
    }
}

/// A digit is no whitespace.
proof fn lemma_digit_not_space(c: char)
    requires
        crate::text::is_digit(c),
    ensures
        !crate::text::is_space(c),
{
}

/// The decimal rendering of an unsigned integer carries no surrounding
/// whitespace and parses back to the integer itself.
proof fn lemma_uint_string_round(n: u32)
    ensures
        crate::text::spec_trim(crate::text::spec_uint_string(n as int)) == crate::text::spec_uint_string(n as int),
        uint_text_ok(crate::text::spec_uint_string(n as int)),
        spec_digits_val(crate::text::spec_uint_string(n as int)) == n,
{
    crate::text::lemma_uint_string_val(n as int);
    let s = crate::text::spec_uint_string(n as int);
    lemma_digit_not_space(s[0]);
    lemma_digit_not_space(s[s.len() - 1]);
    crate::text::lemma_trimmed_fixpoint(s);
}

/// The boolean tokens carry no surrounding whitespace, and each one parses
/// back to its own boolean.
proof fn lemma_bool_string_round(b: bool)
    ensures
        crate::text::spec_trim(crate::text::spec_bool_string(b)) == crate::text::spec_bool_string(
            b,
        ),
        bool_text_ok(crate::text::spec_bool_string(b)),
        (crate::text::spec_bool_string(b) == "true"@) == b,
{
    reveal_strlit("true");
    reveal_strlit("false");
    assert("true"@.len() == 4);
    assert("false"@.len() == 5);
    assert("true"@ != "false"@);
    let s = crate::text::spec_bool_string(b);
    assert(!crate::text::is_space(s[0]));
    assert(!crate::text::is_space(s[s.len() - 1]));
    crate::text::lemma_trimmed_fixpoint(s);
}

/// The part record's free-text fields carry no surrounding whitespace, and
/// its rating is decimal numeric text.
pub open spec fn trimmed_part(p: DBPartProps) -> bool {
    &&& crate::text::is_trimmed(p.name@)
    &&& crate::text::is_trimmed(p.image_url@)
    &&& crate::text::is_trimmed(p.model@)
    &&& crate::text::is_trimmed(p.manufactuer@)
    &&& crate::text::is_trimmed(p.release_date@)
    &&& crate::text::is_trimmed(p.rating.0@)
    &&& p.rating.wf()
    &&& match p.category {
        PartsCategory::Basic => true,
        PartsCategory::CPU(c) => {
            &&& crate::text::is_trimmed(c.max_frequency@)
            &&& crate::text::is_trimmed(c.base_frequency@)
            &&& crate::text::is_trimmed(c.max_tdp@)
            &&& crate::text::is_trimmed(c.base_tdp@)
            &&& crate::text::is_trimmed(c.cache@)
            &&& crate::text::is_trimmed(c.max_ram_size@)
            &&& crate::text::is_trimmed(c.max_supported_pcie_version@)
            &&& crate::text::is_trimmed(c.socket@)
            &&& crate::text::is_trimmed(c.max_temperature@)
        },
    }
}

/// Extracting a part record and coercing the extraction back yields the
/// record itself: every field coerces, and any record the coercion
/// characterizes is field-for-field equal to the original. Default
/// instances satisfy the premise, since every zero value is trimmed text,
/// a rendered number, or a boolean token.
#[verifier::rlimit(60)]
pub proof fn lemma_extract_coerce_round_trip(p: DBPartProps)
    requires
        trimmed_part(p),
    ensures
        ({
            let m = crate::schema::extraction_of(
                part_idents(p.category),
                crate::schema::part_values(p),
            );
            &&& all_fields_ok(m, p.category)
            &&& forall|p2: DBPartProps|
                coerced_part(m, p.category, p2) ==> crate::model::part_props_eq(p2, p)
        }),
{
    let ids = part_idents(p.category);
    let vals = crate::schema::part_values(p);
    let m = crate::schema::extraction_of(ids, vals);
    lemma_extraction_lookup(p.category, vals);
    assert(ids[0] == "name"@ && vals[0] == p.name@);
    assert(ids[1] == "image_url"@ && vals[1] == p.image_url@);
    assert(ids[2] == "model"@ && vals[2] == p.model@);
    assert(ids[3] == "manufactuer"@ && vals[3] == p.manufactuer@);
    assert(ids[4] == "release_date"@ && vals[4] == p.release_date@);
    assert(ids[5] == "rating"@ && vals[5] == p.rating.0@);
    assert(tval(m, "name"@) == p.name@);
    assert(tval(m, "image_url"@) == p.image_url@);
    assert(tval(m, "model"@) == p.model@);
    assert(tval(m, "manufactuer"@) == p.manufactuer@);
    assert(tval(m, "release_date"@) == p.release_date@);
    assert(tval(m, "rating"@) == p.rating.0@);
    match p.category {
        PartsCategory::Basic => {
            assert forall|i: int| 0 <= i < ids.len() implies field_ok(
                m,
                #[trigger] ids[i],
                crate::schema::part_kinds(p.category)[i],
            ) by {
                assert(crate::schema::part_kinds(p.category)[i]
                    == crate::schema::base_kinds()[i]);
            }
        },
        PartsCategory::CPU(c) => {
            lemma_uint_string_round(c.cores);
            lemma_uint_string_round(c.threads);
            lemma_uint_string_round(c.max_memory_channels);
            lemma_uint_string_round(c.max_pcie_lanes);
            lemma_bool_string_round(c.ecc_memory_supported);
            assert(ids[6] == "cores"@ && vals[6] == crate::text::spec_uint_string(
                c.cores as int,
            ));
            assert(ids[7] == "threads"@ && vals[7] == crate::text::spec_uint_string(
                c.threads as int,
            ));
            assert(ids[8] == "max_frequency"@ && vals[8] == c.max_frequency@);
            assert(ids[9] == "base_frequency"@ && vals[9] == c.base_frequency@);
            assert(ids[10] == "max_tdp"@ && vals[10] == c.max_tdp@);
            assert(ids[11] == "base_tdp"@ && vals[11] == c.base_tdp@);
            assert(ids[12] == "cache"@ && vals[12] == c.cache@);
            assert(ids[13] == "max_ram_size"@ && vals[13] == c.max_ram_size@);
            assert(ids[14] == "max_memory_channels"@ && vals[14]
                == crate::text::spec_uint_string(c.max_memory_channels as int));
            assert(ids[15] == "ecc_memory_supported"@ && vals[15]
                == crate::text::spec_bool_string(c.ecc_memory_supported));
            assert(ids[16] == "max_pcie_lanes"@ && vals[16] == crate::text::spec_uint_string(
                c.max_pcie_lanes as int,
            ));
            assert(ids[17] == "max_supported_pcie_version"@ && vals[17]
                == c.max_supported_pcie_version@);
            assert(ids[18] == "socket"@ && vals[18] == c.socket@);
            assert(ids[19] == "max_temperature"@ && vals[19] == c.max_temperature@);
            assert(tval(m, "cores"@) == crate::text::spec_uint_string(c.cores as int));
            assert(tval(m, "threads"@) == crate::text::spec_uint_string(c.threads as int));
            assert(tval(m, "max_frequency"@) == c.max_frequency@);
            assert(tval(m, "base_frequency"@) == c.base_frequency@);
            assert(tval(m, "max_tdp"@) == c.max_tdp@);
            assert(tval(m, "base_tdp"@) == c.base_tdp@);
            assert(tval(m, "cache"@) == c.cache@);
            assert(tval(m, "max_ram_size"@) == c.max_ram_size@);
            assert(tval(m, "max_memory_channels"@) == crate::text::spec_uint_string(
                c.max_memory_channels as int,
            ));
            assert(tval(m, "ecc_memory_supported"@) == crate::text::spec_bool_string(
                c.ecc_memory_supported,
            ));
            assert(tval(m, "max_pcie_lanes"@) == crate::text::spec_uint_string(
                c.max_pcie_lanes as int,
            ));
            assert(tval(m, "max_supported_pcie_version"@) == c.max_supported_pcie_version@);
            assert(tval(m, "socket"@) == c.socket@);
            assert(tval(m, "max_temperature"@) == c.max_temperature@);
            assert forall|i: int| 0 <= i < ids.len() implies field_ok(
                m,
                #[trigger] ids[i],
                crate::schema::part_kinds(p.category)[i],
            ) by {
                if i < 6 {
                    assert(crate::schema::part_kinds(p.category)[i]
                        == crate::schema::base_kinds()[i]);
                } else {
                    assert(crate::schema::part_kinds(p.category)[i] == cpu_kinds()[i - 6]);
                    assert(ids[i] == cpu_idents()[i - 6]);
                }
            }
        },
    }
}

} // verus!
