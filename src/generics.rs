use vstd::prelude::*;
use vstd::laws_cmp::obeys_partial_cmp_spec_properties;
use vstd::std_specs::cmp::PartialOrdSpec;
use core::cmp::Ordering;

verus! {

/// A point in the plane.
pub struct Point<T> {
    pub x: T,
    pub y: T,
}

impl<T> Point<T> {
    /// The first coordinate.
    pub fn x(&self) -> (r: &T)
        ensures
            *r == self.x,
    {
        &self.x
    }
}

/// `a` is greater than `b` in the order of `T`.
pub open spec fn greater<T: PartialOrd>(a: T, b: T) -> bool {
    a.partial_cmp_spec(&b) == Some(Ordering::Greater)
}

/// The first of the largest elements of a non-empty list. Where `T` orders
/// its values consistently, no element is greater than the one returned.
pub fn largest<T: PartialOrd>(list: &[T]) -> (r: &T)
    requires
        list@.len() > 0,
    ensures
        exists|i: int| 0 <= i < list@.len() && list@[i] == *r,
        T::obeys_partial_cmp_spec() && obeys_partial_cmp_spec_properties::<T>() ==> forall|i: int|
            0 <= i < list@.len() ==> !greater(#[trigger] list@[i], *r),
{
    let mut largest = &list[0];
    proof {
        if T::obeys_partial_cmp_spec() && obeys_partial_cmp_spec_properties::<T>() {
            reveal(obeys_partial_cmp_spec_properties);
            assert(!greater(list@[0], list@[0]));
        }
    }
    let mut i: usize = 1;
    while i < list.len()
        invariant
            1 <= i <= list@.len(),
            exists|k: int| 0 <= k < i && list@[k] == *largest,
            T::obeys_partial_cmp_spec() && obeys_partial_cmp_spec_properties::<T>() ==> forall|
                j: int,
            | 0 <= j < i ==> !greater(#[trigger] list@[j], *largest),
        decreases list@.len() - i,
    {
        let item = &list[i];
        if item > largest {
            proof {
                if T::obeys_partial_cmp_spec() && obeys_partial_cmp_spec_properties::<T>() {
                    reveal(obeys_partial_cmp_spec_properties);
                    assert forall|j: int| 0 <= j < i + 1 implies !greater(
                        #[trigger] list@[j],
                        *item,
                    ) by {
                        if j < i && greater(list@[j], *item) {
                            assert(greater(*item, *largest));
                            assert(greater(list@[j], *largest));
                        }
                        if j == i {
                            assert(!greater(*item, *item));
                        }
                    }
                }
            }
            largest = item;
        }
        i = i + 1;
    }
    largest
}

} // verus!
