//! Selection of transaction offsets by an optionally half-open range.

use core::ops::{Bound, RangeBounds};
use vstd::math::max;
use vstd::prelude::*;

verus! {

/// Makes `core::ops::Bound` known to the verifier, as the enum of three
/// variants that the standard library documents: `Included` and `Excluded`,
/// each with the endpoint, and `Unbounded`.
#[verifier::external_type_specification]
#[verifier::reject_recursive_types(T)]
pub struct ExBound<T>(Bound<T>);

/// An optionally half-open range.
///
/// Can express both `start..=end` and `start..`.
#[derive(Clone, Copy, Debug)]
pub struct RangeFromMaybeToInclusive {
    /// The start of the range, inclusive.
    pub start: u64,
    /// The end of the range, inclusive, or unbounded if `None`.
    pub end: Option<u64>,
}

/// The inclusive start that a lower bound normalizes to.
pub open spec fn normalized_start(start: Bound<&u64>) -> int {
    match start {
        Bound::Unbounded => 0,
        Bound::Included(s) => *s as int,
        Bound::Excluded(s) => *s + 1,
    }
}

/// The inclusive end that an upper bound normalizes to, given the
/// normalized start. The end is never smaller than the start.
pub open spec fn normalized_end(start: int, end: Bound<&u64>) -> Option<int> {
    match end {
        Bound::Unbounded => None,
        Bound::Included(e) => Some(max(*e as int, start)),
        Bound::Excluded(e) => Some(max(max(*e - 1, 0), start)),
    }
}

/// The range that [`RangeFromMaybeToInclusive::from_range_bounds`] makes of
/// a pair of bounds.
pub open spec fn normalized(start: Bound<&u64>, end: Bound<&u64>) -> RangeFromMaybeToInclusive
    recommends
        normalized_start(start) <= u64::MAX,
{
    let first = normalized_start(start);
    RangeFromMaybeToInclusive {
        start: first as u64,
        end: match normalized_end(first, end) {
            None => None,
            Some(last) => Some(last as u64),
        },
    }
}

impl RangeFromMaybeToInclusive {
    /// Whether the range selects nothing: it has an end, and the end is not
    /// beyond the start.
    pub open spec fn spec_is_empty(&self) -> bool {
        self.end matches Some(end) && end <= self.start
    }

    /// Whether `item` lies between the start and the end, both inclusive.
    pub open spec fn spec_contains(&self, item: u64) -> bool {
        self.start <= item && (self.end matches Some(end) ==> item <= end)
    }

    /// Normalizes a pair of bounds over `u64`, as a range hands them out.
    ///
    /// A start that is left open becomes zero, and one that is excluded
    /// moves up by one. An end that is excluded moves down by one, but not
    /// below zero, and no end stays below the start.
    pub fn from_range_bounds(start: Bound<&u64>, end: Bound<&u64>) -> (r: Self)
        requires
            normalized_start(start) <= u64::MAX,
        ensures
            r == normalized(start, end),
    {
        let start: u64 = match start {
            Bound::Unbounded => 0,
            Bound::Included(start) => *start,
            Bound::Excluded(start) => *start + 1,
        };
        let end: Option<u64> = match end {
            Bound::Unbounded => None,
            Bound::Included(end) => Some(if *end >= start { *end } else { start }),
            Bound::Excluded(end) => {
                let last: u64 = end.saturating_sub(1);
                Some(if last >= start { last } else { start })
            },
        };
        Self { start, end }
    }

    /// Whether the range has an end that is not beyond its start.
    #[verifier::when_used_as_spec(spec_is_empty)]
    pub fn is_empty(&self) -> (b: bool)
        ensures
            b == self.spec_is_empty(),
    {
        match self.end {
            Some(end) => end <= self.start,
            None => false,
        }
    }

    /// Whether `item` is at or after the start, and at or before the end
    /// if there is one.
    pub fn contains(&self, item: &u64) -> (b: bool)
        ensures
            b == self.spec_contains(*item),
    {
        *item >= self.start && match self.end {
            None => true,
            Some(end) => *item <= end,
        }
    }
}

impl RangeBounds<u64> for RangeFromMaybeToInclusive {
    fn start_bound(&self) -> (b: Bound<&u64>)
        ensures
            b == Bound::Included(&self.start),
    {
        Bound::Included(&self.start)
    }

    fn end_bound(&self) -> (b: Bound<&u64>)
        ensures
            b == match self.end {
                Some(end) => Bound::Included(&end),
                None => Bound::Unbounded,
            },
    {
        match &self.end {
            Some(end) => Bound::Included(end),
            None => Bound::Unbounded,
        }
    }
}

/// A normalized range never ends before it starts, and so it contains its
/// own start.
pub proof fn lemma_normalized_contains_start(start: Bound<&u64>, end: Bound<&u64>)
    requires
        normalized_start(start) <= u64::MAX,
    ensures
        normalized(start, end).end matches Some(last) ==> normalized(start, end).start <= last,
        normalized(start, end).spec_contains(normalized(start, end).start),
{
}

/// A normalized range that is not empty has a member, and only such a one:
/// emptiness and the absence of members agree on it.
///
/// On a normalized range that is empty they do not: its end is its start,
/// and that offset it contains.
pub proof fn lemma_nonempty_has_member(start: Bound<&u64>, end: Bound<&u64>)
    requires
        normalized_start(start) <= u64::MAX,
        !normalized(start, end).spec_is_empty(),
    ensures
        normalized(start, end).spec_is_empty() <==> !exists|x: u64|
            normalized(start, end).spec_contains(x),
{
    lemma_normalized_contains_start(start, end);
    let r = normalized(start, end);
    assert(r.spec_contains(r.start));
}

} // verus!
