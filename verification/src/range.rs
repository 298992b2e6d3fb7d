//! Ranges with open ends, and the atoms of which selections of lines and of
//! fields are made.

use vstd::prelude::*;
use vstd::std_specs::cmp::{PartialOrdIs, PartialOrdSpec};

verus! {

/// An interval whose bounds are both included; a bound that is absent leaves
/// that side open.
#[derive(Debug, PartialEq)]
pub struct OpenRange<T> {
    pub lower_bound: Option<T>,
    pub upper_bound: Option<T>,
}

impl<T> OpenRange<T> {
    /// The range from `lower_bound` to `upper_bound`.
    pub fn new(lower_bound: Option<T>, upper_bound: Option<T>) -> (r: Self)
        ensures
            r == (OpenRange { lower_bound, upper_bound }),
    {
        OpenRange { lower_bound, upper_bound }
    }

    /// The range whose bounds are the images of this range's bounds under `f`.
    pub fn map<S>(&self, mut f: impl FnMut(&T) -> S) -> (r: OpenRange<S>)
        requires
            self.lower_bound matches Some(b) ==> call_requires(f, (&b,)),
            self.upper_bound matches Some(b) ==> call_requires(f, (&b,)),
        ensures
            r.lower_bound is Some == self.lower_bound is Some,
            r.upper_bound is Some == self.upper_bound is Some,
            self.lower_bound matches Some(b) ==> call_ensures(f, (&b,), r.lower_bound->0),
            self.upper_bound matches Some(b) ==> call_ensures(f, (&b,), r.upper_bound->0),
    {
        let lower_bound = match &self.lower_bound {
            Some(b) => Some(f(b)),
            None => None,
        };
        let upper_bound = match &self.upper_bound {
            Some(b) => Some(f(b)),
            None => None,
        };
        OpenRange { lower_bound, upper_bound }
    }
}

impl<T: PartialOrd> OpenRange<T> {
    /// Whether `item` lies between the bounds that are present.
    pub open spec fn spec_contains(self, item: T) -> bool {
        &&& self.lower_bound matches Some(b) ==> b.is_le(&item)
        &&& self.upper_bound matches Some(b) ==> item.is_le(&b)
    }

    /// Whether `item` lies in the range. What this says of the order of `T`
    /// holds where that order is known to be what comparing computes.
    pub fn contains(&self, item: T) -> (r: bool)
        ensures
            T::obeys_partial_cmp_spec() ==> r == self.spec_contains(item),
    {
        (match self.lower_bound {
            Some(ref bound) => *bound <= item,
            None => true,
        }) && match self.upper_bound {
            Some(ref bound) => item <= *bound,
            None => true,
        }
    }
}

/// A field's position in a line: counted from the first field, which is
/// number 1, or from the last one, which is `FromLast(1)`.
#[derive(Debug, PartialEq, Clone, Copy)]
pub enum FieldId {
    Int(usize),
    FromLast(usize),
}

impl FieldId {
    /// The position counted from the first field, in a line of `last` fields.
    /// A position before the first field comes out as 0, which is no field.
    pub open spec fn position(self, last: nat) -> nat {
        match self {
            FieldId::Int(i) => i as nat,
            FieldId::FromLast(i) => if i <= last + 1 {
                (last + 1 - i) as nat
            } else {
                0
            },
        }
    }

    /// The position counted from the first field, in a line of `last` fields.
    pub fn to_usize(self, last: usize) -> (r: usize)
        requires
            last < usize::MAX,
        ensures
            r == self.position(last as nat),
    {
        match self {
            FieldId::Int(i) => i,
            FieldId::FromLast(i) => {
                if last + 1 >= i {
                    last + 1 - i
                } else {
                    0
                }
            },
        }
    }
}

/// One item of a field selection: a single position, or a range of them.
#[derive(Debug, PartialEq)]
pub enum FieldsAtom {
    Single(FieldId),
    Range(OpenRange<FieldId>),
}

impl FieldsAtom {
    /// Whether field number `n` of a line of `last` fields is selected.
    pub open spec fn spec_contains(self, n: nat, last: nat) -> bool {
        match self {
            FieldsAtom::Single(id) => n == id.position(last),
            FieldsAtom::Range(range) => {
                &&& range.lower_bound matches Some(id) ==> id.position(last) <= n
                &&& range.upper_bound matches Some(id) ==> n <= id.position(last)
            },
        }
    }

    /// Whether field number `n` of a line of `last` fields is selected.
    pub fn contains(&self, n: usize, last: usize) -> (r: bool)
        requires
            last < usize::MAX,
        ensures
            r == self.spec_contains(n as nat, last as nat),
    {
        match self {
            FieldsAtom::Single(id) => n == id.to_usize(last),
            FieldsAtom::Range(range) => {
                let resolve = |id: &FieldId| -> (p: usize)
                    requires
                        last < usize::MAX,
                    ensures
                        p == id.position(last as nat),
                    { id.to_usize(last) };
                range.map(resolve).contains(n)
            },
        }
    }
}

/// One item of a line selection: a single line number, or a range of them.
#[derive(Debug)]
pub enum LinesAtom {
    Single(usize),
    Range(OpenRange<usize>),
}

impl LinesAtom {
    /// Whether line number `l` is selected.
    pub open spec fn spec_contains(self, l: nat) -> bool {
        match self {
            LinesAtom::Single(n) => l == n,
            LinesAtom::Range(range) => {
                &&& range.lower_bound matches Some(n) ==> n <= l
                &&& range.upper_bound matches Some(n) ==> l <= n
            },
        }
    }

    /// Whether line number `l` is selected.
    pub fn contains(&self, l: usize) -> (r: bool)
        ensures
            r == self.spec_contains(l as nat),
    {
        match self {
            LinesAtom::Single(n) => l == *n,
            LinesAtom::Range(range) => range.contains(l),
        }
    }
}

} // verus!
