//! The comparison operators on quantities, and clamping.
use crate::structs::scalar::Scalar;
use std::cmp::Ordering;
use vstd::prelude::*;
use vstd::std_specs::cmp::{PartialEqSpecImpl, PartialOrdSpecImpl};

verus! {

impl PartialEq for Scalar {
    fn eq(&self, other: &Scalar) -> (r: bool) {
        !self.is_nan() && !other.is_nan() && self.key() == other.key()
    }
}

impl PartialEqSpecImpl for Scalar {
    open spec fn obeys_eq_spec() -> bool {
        true
    }

    open spec fn eq_spec(&self, other: &Scalar) -> bool {
        self.same(*other)
    }
}

impl PartialOrd for Scalar {
    fn partial_cmp(&self, other: &Scalar) -> (r: Option<Ordering>) {
        if self.is_nan() || other.is_nan() {
            None
        } else if self.key() < other.key() {
            Some(Ordering::Less)
        } else if self.key() > other.key() {
            Some(Ordering::Greater)
        } else {
            Some(Ordering::Equal)
        }
    }
}

impl PartialOrdSpecImpl for Scalar {
    open spec fn obeys_partial_cmp_spec() -> bool {
        true
    }

    open spec fn partial_cmp_spec(&self, other: &Scalar) -> Option<Ordering> {
        if self.nan() || other.nan() {
            None
        } else if self.rank() < other.rank() {
            Some(Ordering::Less)
        } else if self.rank() > other.rank() {
            Some(Ordering::Greater)
        } else {
            Some(Ordering::Equal)
        }
    }
}

/// What clamping makes of a quantity: the lower bound if the quantity is
/// below it, the upper bound if it is above that, and else the quantity
/// itself. A NaN is neither below nor above anything and stays.
pub open spec fn clamped(input: Scalar, min: Scalar, max: Scalar) -> Scalar {
    if input.below(min) {
        min
    } else if max.below(input) {
        max
    } else {
        input
    }
}

/// `num::clamp`, which compares with `<` and `>` as defined above: it
/// returns `min` where `input < min`, else `max` where `input > max`, else
/// `input`. It may panic unless `min <= max`.
#[verifier::external_body]
fn num_clamp(input: Scalar, min: Scalar, max: Scalar) -> (r: Scalar)
    requires
        min.at_most(max),
    ensures
        r == clamped(input, min, max),
{
    num::clamp(input, min, max)
}

/// Clamps a quantity to the range from `min` to `max`. Bounds that are not
/// ordered, or not comparable, clamp nothing.
pub fn clamp(input: Scalar, min: Scalar, max: Scalar) -> (r: Scalar)
    ensures
        min.at_most(max) ==> r == clamped(input, min, max),
        !min.at_most(max) ==> r == input,
{
    if min.le(&max) {
        num_clamp(input, min, max)
    } else {
        input
    }
}

} // verus!
