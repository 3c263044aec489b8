//! Core engine of a PC-part catalog: a closed set of part categories, a
//! schema-driven property extractor, an edit-buffer differ for category
//! switches, a string-to-record coercer, and a session ordering store.

pub mod coerce;
pub mod decimal;
pub mod differ;
pub mod laws;
pub mod model;
pub mod ordering;
pub mod ordmap;
pub mod schema;
pub mod text;

use vstd::prelude::*;

verus! {

/// Remaps a raw boolean display token to its presentation form; every other
/// display string is passed through unchanged.
pub fn format_property(property: String) -> (r: String)
    ensures
        property@ == "true"@ ==> r@ == "Yes"@,
        property@ == "false"@ ==> r@ == "No"@,
        property@ != "true"@ && property@ != "false"@ ==> r == property,
{
    proof {
        reveal_strlit("true");
        reveal_strlit("false");
        assert("true"@.len() == 4);
        assert("false"@.len() == 5);
        assert("true"@ != "false"@);
    }
    let t = String::from_str("true");
    let f = String::from_str("false");
    if property == t {
        String::from_str("Yes")
    } else if property == f {
        String::from_str("No")
    } else {
        property
    }
}

} // verus!
