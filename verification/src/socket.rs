//! The smart socket: a named powered outlet.

use vstd::prelude::*;
use crate::reading::Reading;

verus! {

/// A powered outlet. It is on or off, and draws its rated wattage
/// exactly while on.
#[derive(Clone, Debug)]
pub struct Socket {
    /// The socket's display name.
    pub name: String,
    /// Whether the socket is on.
    pub is_on: bool,
    /// The rated wattage drawn while on, constant across the lifetime.
    pub power_consumption: Reading,
}

impl Socket {
    /// The state after turning the socket on.
    pub open spec fn spec_turned_on(&self) -> Socket {
        Socket { name: self.name, is_on: true, power_consumption: self.power_consumption }
    }

    /// The state after turning the socket off.
    pub open spec fn spec_turned_off(&self) -> Socket {
        Socket { name: self.name, is_on: false, power_consumption: self.power_consumption }
    }

    /// Creates a socket with a name and a rated wattage; it starts off.
    pub fn new(name: &str, power_consumption: Reading) -> (r: Socket)
        ensures
            r.name@ == name@,
            !r.is_on,
            r.power_consumption == power_consumption,
    {
        Socket { name: name.to_owned(), is_on: false, power_consumption }
    }

    /// Turns the socket on. Idempotent, no other effect.
    pub fn turn_on(&mut self)
        ensures
            *final(self) == old(self).spec_turned_on(),
    {
        self.is_on = true;
    }

    /// Turns the socket off. Idempotent, no other effect.
    pub fn turn_off(&mut self)
        ensures
            *final(self) == old(self).spec_turned_off(),
    {
        self.is_on = false;
    }

    /// Whether the socket is on.
    pub fn is_on(&self) -> (r: bool)
        ensures
            r == self.is_on,
    {
        self.is_on
    }

    /// The instantaneous power draw: the rated wattage while on, zero
    /// while off.
    pub fn power(&self) -> (r: Reading)
        ensures
            self.is_on ==> r == self.power_consumption,
            !self.is_on ==> r.is_zero(),
    {
        if self.is_on {
            Reading { bits: self.power_consumption.bits, text: self.power_consumption.text.clone() }
        } else {
            Reading::zero()
        }
    }

    /// The socket's display name.
    pub fn name(&self) -> (r: &str)
        ensures
            r@ == self.name@,
    {
        self.name.as_str()
    }

    /// The rated wattage (not the instantaneous draw).
    pub fn power_consumption(&self) -> (r: Reading)
        ensures
            r == self.power_consumption,
    {
        Reading { bits: self.power_consumption.bits, text: self.power_consumption.text.clone() }
    }
}

/// Turning a socket on twice leaves the same state as turning it on
/// once, and likewise for turning it off.
pub proof fn lemma_toggle_idempotent(s: Socket)
    ensures
        s.spec_turned_on().spec_turned_on() == s.spec_turned_on(),
        s.spec_turned_off().spec_turned_off() == s.spec_turned_off(),
{
}

/// Turning a socket on and off only moves the flag: the name and the
/// rated wattage survive any sequence of toggles.
pub proof fn lemma_toggle_preserves_identity(s: Socket)
    ensures
        s.spec_turned_on().name == s.name,
        s.spec_turned_on().power_consumption == s.power_consumption,
        s.spec_turned_off().name == s.name,
        s.spec_turned_off().power_consumption == s.power_consumption,
        s.spec_turned_on().spec_turned_off() == s.spec_turned_off(),
        s.spec_turned_off().spec_turned_on() == s.spec_turned_on(),
{
}

} // verus!
