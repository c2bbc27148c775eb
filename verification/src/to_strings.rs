//! Converting lists of string slices into owned strings.

use vstd::prelude::*;

verus! {

/// The owned forms of the given string slices, in order.
pub fn to_strings(strs: &Vec<&str>) -> (r: Vec<String>)
    ensures
        r@.len() == strs@.len(),
        forall|i: int| 0 <= i < strs@.len() ==> (#[trigger] r@[i])@ == strs@[i]@,
{
    let mut out: Vec<String> = Vec::new();
    let mut i: usize = 0;
    while i < strs.len()
        invariant
            i <= strs@.len(),
            out@.len() == i,
            forall|j: int| 0 <= j < i ==> (#[trigger] out@[j])@ == strs@[j]@,
        decreases strs@.len() - i,
    {
        out.push(String::from_str(strs[i]));
        i = i + 1;
    }
    out
}

} // verus!
