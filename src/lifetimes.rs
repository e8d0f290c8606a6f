use vstd::prelude::*;

verus! {

/// The longer of two texts, by length in bytes; `y` where they are equally
/// long.
pub fn longest<'a>(x: &'a str, y: &'a str) -> (r: &'a str)
    ensures
        r@ == if x.len() > y.len() {
            x@
        } else {
            y@
        },
{
    if x.len() > y.len() {
        x
    } else {
        y
    }
}

} // verus!
