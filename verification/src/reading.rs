//! Numeric readings: the values a device stores (a temperature in
//! degrees Celsius, a rated wattage).
//!
//! The inventory never computes with a reading; it stores it, hands it
//! back, and renders it inside a report. A reading is therefore carried
//! as a pair: the raw bit pattern of an IEEE-754 single-precision value,
//! which is the reading's identity (bit equality is value identity, so
//! "holds the last assigned value" is exact, for non-finite values too),
//! and the decimal text under which the reading is displayed. The text
//! is display metadata supplied by whoever produced the value, just as a
//! device's name is; the caller that turns a machine float into a
//! `Reading` renders it once at that boundary.

use vstd::prelude::*;

verus! {

/// A numeric reading: the raw bits of an IEEE-754 single-precision
/// value, and the decimal text it is displayed as. The bit pattern 0 is
/// positive zero, displayed as `0`.
#[derive(Clone, Debug)]
pub struct Reading {
    /// The raw IEEE-754 bit pattern: the reading's identity.
    pub bits: u32,
    /// The decimal text the reading is displayed as.
    pub text: String,
}

impl Reading {
    /// True of a reading that is positive zero, displayed as `0`.
    pub open spec fn is_zero(&self) -> bool {
        self.bits == 0 && self.text@ == "0"@
    }

    /// The reading for positive zero.
    pub fn zero() -> (r: Reading)
        ensures
            r.is_zero(),
    {
        Reading { bits: 0, text: String::from_str("0") }
    }
}

impl PartialEq for Reading {
    fn eq(&self, other: &Reading) -> (r: bool) {
        self.bits == other.bits && self.text == other.text
    }
}

impl vstd::std_specs::cmp::PartialEqSpecImpl for Reading {
    open spec fn obeys_eq_spec() -> bool {
        true
    }

    open spec fn eq_spec(&self, other: &Reading) -> bool {
        self.bits == other.bits && self.text@ == other.text@
    }
}

} // verus!
