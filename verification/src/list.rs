//! Lists that are taken apart from the front.

use vstd::prelude::*;

verus! {

/// The items of `list` in the opposite order, so that the first can be
/// taken off the end.
pub fn reversed<T>(list: Vec<T>) -> (r: Vec<T>)
    ensures
        r@.len() == list@.len(),
        forall|k: int| 0 <= k < r@.len() ==> r@[k] == list@[list@.len() - 1 - k],
{
    let mut source = list;
    let mut r: Vec<T> = Vec::new();
    loop
        invariant
            source@.len() + r@.len() == list@.len(),
            forall|k: int| 0 <= k < source@.len() ==> source@[k] == list@[k],
            forall|k: int| 0 <= k < r@.len() ==> r@[k] == list@[list@.len() - 1 - k],
        decreases source@.len(),
    {
        match source.pop() {
            Some(item) => {
                r.push(item);
            },
            None => {
                return r;
            },
        }
    }
}

} // verus!
