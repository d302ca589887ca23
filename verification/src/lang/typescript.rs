//! TypeScript declares overloads and ambient functions without a body.

use crate::text::{slice_views, str_contains_char};
use vstd::prelude::*;

verus! {

/// No line holds an opening brace.
pub open spec fn is_stub(lines: Seq<Seq<char>>) -> bool {
    forall|i: int| 0 <= i < lines.len() ==> !(#[trigger] lines[i]).contains('{')
}

/// Whether the lines are an overload stub rather than an implementation: a real implementation
/// always contains `{`.
pub fn is_overload_stub(lines: &[&str]) -> (r: bool)
    ensures
        r == is_stub(slice_views(lines@)),
{
    let mut i: usize = 0;
    while i < lines.len()
        invariant
            0 <= i <= lines@.len(),
            forall|k: int| 0 <= k < i ==> !(#[trigger] slice_views(lines@)[k]).contains('{'),
        decreases lines@.len() - i,
    {
        if str_contains_char(lines[i], '{') {
            assert(slice_views(lines@)[i as int].contains('{'));
            return false;
        }
        i = i + 1;
    }
    true
}

} // verus!
