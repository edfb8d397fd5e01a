use vstd::prelude::*;
use core::cmp::Ordering;
use vstd::std_specs::cmp::PartialOrdSpec;

verus! {

/// `a <= b` in the order that `PartialOrd` gives the element type.
pub open spec fn le_by_order<T: PartialOrd + PartialOrdSpec>(a: T, b: T) -> bool {
    a.partial_cmp_spec(&b) matches Some(Ordering::Less | Ordering::Equal)
}

/// A closed interval `[left, right]` that may carry a piece of data.
#[derive(Clone, Copy, Debug, PartialEq, Eq)]
pub struct Interval<TElement, TData> {
    pub left: TElement,
    pub right: TElement,
    pub data: Option<TData>,
}

impl<TElement: Ord + Copy, TData: Eq + Copy> Interval<TElement, TData> {
    pub fn new(left: TElement, right: TElement) -> (res: Interval<TElement, TData>)
        ensures
            res.left == left,
            res.right == right,
            res.data is None,
    {
        Interval { left, right, data: None }
    }

    pub fn new_with_data(left: TElement, right: TElement, data: Option<TData>) -> (res: Interval<TElement, TData>)
        ensures
            res.left == left,
            res.right == right,
            res.data == data,
    {
        Interval { left, right, data }
    }

    /// Whether `point` lies between the two ends, both included.
    pub fn contains(&self, point: TElement) -> (res: bool)
        ensures
            TElement::obeys_partial_cmp_spec() ==> (res == (le_by_order(self.left, point) && le_by_order(point, self.right))),
    {
        self.left <= point && point <= self.right
    }
}

} // verus!
