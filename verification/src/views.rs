//! Named views of exec-level columns and maps as their mathematical values,
//! with the small facts the rest of the library leans on.

use vstd::prelude::*;

verus! {

/// The character sequences of a column of strings.
pub open spec fn parts_view(v: Seq<String>) -> Seq<Seq<char>> {
    v.map_values(|p: String| p@)
}

/// The character sequences of a string-valued map's values.
pub open spec fn params_view(m: Map<Seq<char>, String>) -> Map<Seq<char>, Seq<char>> {
    m.map_values(|v: String| v@)
}

/// Viewing a column of strings keeps its length.
pub broadcast proof fn lemma_parts_view_len(v: Seq<String>)
    ensures
        (#[trigger] parts_view(v)).len() == v.len(),
{
}

/// Viewing a column of strings views each entry.
pub broadcast proof fn lemma_parts_view_index(v: Seq<String>, i: int)
    requires
        0 <= i < v.len(),
    ensures
        (#[trigger] parts_view(v)[i]) == v[i]@,
{
}

/// Viewing a map after an insert is inserting the viewed value.
pub broadcast proof fn lemma_params_view_insert(m: Map<Seq<char>, String>, k: Seq<char>, v: String)
    ensures
        (#[trigger] params_view(m.insert(k, v))) == params_view(m).insert(k, v@),
{
    assert(params_view(m.insert(k, v)) =~= params_view(m).insert(k, v@));
}


} // verus!
