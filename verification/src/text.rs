//! Views of collections that hold strings.

use crate::binary64::Binary64;
use vstd::prelude::*;

verus! {

/// The strings of `list` as plain values.
pub open spec fn strings_view(list: Seq<String>) -> Seq<Seq<char>> {
    list.map_values(|s: String| s@)
}

/// Named numbers as plain values.
pub open spec fn parameters_view(parameters: Seq<(String, Binary64)>) -> Seq<(Seq<char>, Binary64)> {
    parameters.map_values(|parameter: (String, Binary64)| (parameter.0@, parameter.1))
}

} // verus!
