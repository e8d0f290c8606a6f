use vstd::prelude::*;

verus! {

/// Counts up from zero until the count reaches `limit`, and returns the count.
pub fn loop_fn(limit: i32) -> (r: i32)
    requires
        limit >= 1,
    ensures
        r == limit,
{
    let mut counter: i32 = 0;
    loop
        invariant_except_break
            0 <= counter < limit,
        ensures
            counter == limit,
        decreases limit - counter,
    {
        counter = counter + 1;
        if counter == limit {
            break;
        }
    }
    counter
}

} // verus!
