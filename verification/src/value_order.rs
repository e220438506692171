//! The order of values as `<` and `partial_cmp` see it.

use std::cmp::Ordering;
use vstd::prelude::*;
use crate::value::{value_sign, Value};

verus! {

/// The order that the sign `sign` stands for.
pub open spec fn ordering_of(sign: int) -> Ordering {
    if sign < 0 {
        Ordering::Less
    } else if sign == 0 {
        Ordering::Equal
    } else {
        Ordering::Greater
    }
}

/// Values are ordered by their types first, then by what they hold:
/// numbers by their size, blobs and texts byte by byte.
impl PartialOrd for Value {
    fn partial_cmp(&self, other: &Value) -> (result: Option<Ordering>) {
        let sign: i8 = self.sign(other);
        if sign < 0 {
            Some(Ordering::Less)
        } else if sign == 0 {
            Some(Ordering::Equal)
        } else {
            Some(Ordering::Greater)
        }
    }
}

impl vstd::std_specs::cmp::PartialOrdSpecImpl for Value {
    open spec fn obeys_partial_cmp_spec() -> bool {
        true
    }

    open spec fn partial_cmp_spec(&self, other: &Value) -> Option<Ordering> {
        Some(ordering_of(value_sign(self@, other@)))
    }
}

} // verus!
