//! Small executable helpers over strings, each tied to its character-level
//! model.

use vstd::prelude::*;

verus! {

/// Character-level equality of two string slices.
pub fn str_eq(a: &str, b: &str) -> (r: bool)
    ensures
        r == (a@ == b@),
{
    let sa = String::from_str(a);
    let sb = String::from_str(b);
    sa == sb
}

/// Whether `x` occurs in `names`, compared character by character.
pub fn contains_str(names: &Vec<String>, x: &str) -> (r: bool)
    ensures
        r == crate::model::string_views(names@).contains(x@),
{
    let mut i: usize = 0;
    while i < names.len()
        invariant
            0 <= i <= names.len(),
            forall|j: int| 0 <= j < i ==> crate::model::string_views(names@)[j] != x@,
        decreases names.len() - i,
    {
        if str_eq(names[i].as_str(), x) {
            assert(crate::model::string_views(names@)[i as int] == x@);
            return true;
        }
        i = i + 1;
    }
    false
}

} // verus!
