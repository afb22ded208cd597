//! Observations: what the data source published for one day.

use crate::date::CivilDate;
use std::cmp::Ordering;
use vstd::prelude::*;

verus! {

/// An exact decimal number, as `rust_decimal` holds it. Nothing here looks
/// inside one: a rate is carried from the input to the output untouched.
#[verifier::external_type_specification]
#[verifier::external_body]
pub struct ExDecimal(rust_decimal::Decimal);

/// The price of one unit of the base currency in the quote currency.
#[derive(Clone, Copy, Debug)]
pub struct Fx {
    /// Value of one unit of the left currency in the right currency.
    pub v: rust_decimal::Decimal,
}

/// The rate published for one day.
#[derive(Clone, Copy, Debug)]
pub struct Observation {
    /// The day the rate was published for.
    pub d: CivilDate,
    /// The rate of that day.
    pub fx: Fx,
}

impl PartialEq for Observation {
    /// Two observations are equal when they are dated on the same day,
    /// whatever their rates.
    fn eq(&self, other: &Self) -> (r: bool) {
        self.d == other.d
    }
}

impl Eq for Observation {

}

impl vstd::std_specs::cmp::PartialEqSpecImpl for Observation {
    open spec fn obeys_eq_spec() -> bool {
        true
    }

    open spec fn eq_spec(&self, other: &Self) -> bool {
        self.d == other.d
    }
}

impl PartialOrd for Observation {
    /// Observations are ordered by their dates alone.
    fn partial_cmp(&self, other: &Self) -> (r: Option<Ordering>) {
        if self.d.is_before(&other.d) {
            Some(Ordering::Less)
        } else if self.d == other.d {
            Some(Ordering::Equal)
        } else {
            Some(Ordering::Greater)
        }
    }
}

impl vstd::std_specs::cmp::PartialOrdSpecImpl for Observation {
    open spec fn obeys_partial_cmp_spec() -> bool {
        true
    }

    open spec fn partial_cmp_spec(&self, other: &Self) -> Option<Ordering> {
        if self.d.before(other.d) {
            Some(Ordering::Less)
        } else if self.d == other.d {
            Some(Ordering::Equal)
        } else {
            Some(Ordering::Greater)
        }
    }
}

} // verus!
