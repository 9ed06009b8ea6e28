//! The smart thermometer: a named temperature sensor.

use vstd::prelude::*;
use crate::reading::Reading;

verus! {

/// A temperature sensor. It holds the last assigned reading, in degrees
/// Celsius, with no bound or validation.
#[derive(Clone, Debug)]
pub struct Thermometer {
    /// The thermometer's display name.
    pub name: String,
    /// The last assigned temperature.
    pub current_temperature: Reading,
}

impl Thermometer {
    /// The state after assigning a temperature.
    pub open spec fn spec_with_temperature(&self, v: Reading) -> Thermometer {
        Thermometer { name: self.name, current_temperature: v }
    }

    /// Creates a thermometer with a name and an initial reading.
    pub fn new(name: &str, current_temperature: Reading) -> (r: Thermometer)
        ensures
            r.name@ == name@,
            r.current_temperature == current_temperature,
    {
        Thermometer { name: name.to_owned(), current_temperature }
    }

    /// The current temperature.
    pub fn temperature(&self) -> (r: Reading)
        ensures
            r == self.current_temperature,
    {
        Reading {
            bits: self.current_temperature.bits,
            text: self.current_temperature.text.clone(),
        }
    }

    /// The thermometer's display name.
    pub fn name(&self) -> (r: &str)
        ensures
            r@ == self.name@,
    {
        self.name.as_str()
    }

    /// Overwrites the stored reading, unconditionally.
    pub fn set_temperature(&mut self, temperature: Reading)
        ensures
            *final(self) == old(self).spec_with_temperature(temperature),
    {
        self.current_temperature = temperature;
    }
}

/// A thermometer reads back exactly the value last assigned, whatever
/// that value is, and keeps its name.
pub proof fn lemma_set_temperature_reads_back(t: Thermometer, v: Reading)
    ensures
        t.spec_with_temperature(v).current_temperature == v,
        t.spec_with_temperature(v).name == t.name,
{
}

} // verus!
