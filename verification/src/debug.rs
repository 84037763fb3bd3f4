//! Reading on/off switches from environment variables.
use vstd::prelude::*;

use crate::text::{ascii_lower, chars_of, is_blank, str_eq, string_from_chars, sub_chars, to_ascii_lower, trim, trim_bounds};

verus! {

broadcast use vstd::string::group_string_axioms;

/// A switch's value turns it on: after trimming white space it is not empty,
/// not `0`, and not `false` in any ASCII case.
pub open spec fn flag_enabled(value: Seq<char>) -> bool {
    let v = trim(value);
    v.len() > 0 && v != "0"@ && ascii_lower(v) != "false"@
}

/// Whether the value of an environment variable (`None` when it is unset or
/// not Unicode) turns a switch on.
pub fn env_value_enabled(value: Option<&str>) -> (b: bool)
    ensures
        b == match value {
            Some(v) => flag_enabled(v@),
            None => false,
        },
{
    match value {
        None => false,
        Some(v) => {
            let chars = chars_of(v);
            let (lo, hi) = trim_bounds(&chars);
            let t = sub_chars(&chars, lo, hi);
            let trimmed = string_from_chars(&t);
            let lower = string_from_chars(&to_ascii_lower(&t));
            trimmed.unicode_len() > 0 && !str_eq(trimmed.as_str(), "0") && !str_eq(
                lower.as_str(),
                "false",
            )
        },
    }
}

} // verus!
