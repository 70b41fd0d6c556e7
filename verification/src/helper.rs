//! Small general-purpose helpers.

use vstd::prelude::*;

verus! {

/// Choose between a singular and a plural noun for a count.
pub fn pluralize<'a>(singular: &'a str, plural: &'a str, count: usize) -> (r: &'a str)
    ensures
        count == 1 ==> r@ == singular@,
        count != 1 ==> r@ == plural@,
{
    if count == 1 {
        singular
    } else {
        plural
    }
}

} // verus!
