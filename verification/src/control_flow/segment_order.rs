//! The partial order of selector segments.
use core::cmp::Ordering;
use vstd::prelude::*;
use vstd::std_specs::cmp::PartialOrdSpecImpl;

use super::selector::{segment_precedes, CFSelectorSegment};

verus! {

impl PartialOrd for CFSelectorSegment {
    fn partial_cmp(&self, other: &Self) -> (res: Option<Ordering>) {
        match (self, other) {
            (CFSelectorSegment::ContentAtIndex(i), CFSelectorSegment::ContentAtIndex(j))
            | (CFSelectorSegment::IndexInSuccess(i), CFSelectorSegment::IndexInSuccess(j))
            | (CFSelectorSegment::IndexInFailure(i), CFSelectorSegment::IndexInFailure(j)) => {
                if *i < *j {
                    Some(Ordering::Less)
                } else if *i == *j {
                    Some(Ordering::Equal)
                } else {
                    Some(Ordering::Greater)
                }
            },
            (CFSelectorSegment::IfCondition, CFSelectorSegment::IfCondition) => Some(
                Ordering::Equal,
            ),
            (
                CFSelectorSegment::IfCondition,
                CFSelectorSegment::IndexInSuccess(_) | CFSelectorSegment::IndexInFailure(_),
            ) => Some(Ordering::Less),
            (
                CFSelectorSegment::IndexInFailure(_) | CFSelectorSegment::IndexInSuccess(_),
                CFSelectorSegment::IfCondition,
            ) => Some(Ordering::Greater),
            (CFSelectorSegment::IndexInSuccess(_), CFSelectorSegment::IndexInFailure(_)) => Some(
                Ordering::Less,
            ),
            (CFSelectorSegment::IndexInFailure(_), CFSelectorSegment::IndexInSuccess(_)) => Some(
                Ordering::Greater,
            ),
            _ => None,
        }
    }
}

impl PartialOrdSpecImpl for CFSelectorSegment {
    open spec fn obeys_partial_cmp_spec() -> bool {
        true
    }

    open spec fn partial_cmp_spec(&self, other: &Self) -> Option<Ordering> {
        if segment_precedes(*self, *other) {
            Some(Ordering::Less)
        } else if segment_precedes(*other, *self) {
            Some(Ordering::Greater)
        } else if *self == *other {
            Some(Ordering::Equal)
        } else {
            None
        }
    }
}

} // verus!
