//! The device union: the closed set of device kinds a room can hold.

use vstd::prelude::*;
use crate::report::Report;
use crate::socket::Socket;
use crate::thermometer::Thermometer;

verus! {

/// A smart device: a thermometer or a socket. The union owns its inner
/// variant; the downcasts signal a tag mismatch by an empty result.
#[derive(Clone, Debug)]
pub enum SmartDevice {
    /// A thermometer.
    Thermometer(Thermometer),
    /// A socket.
    Socket(Socket),
}

/// The wattage text a socket reports: its rated wattage while on, `0`
/// while off.
pub open spec fn spec_socket_power_text(s: Socket) -> Seq<char> {
    if s.is_on {
        s.power_consumption.text@
    } else {
        "0"@
    }
}

/// The report line of a device.
pub open spec fn spec_device_report(d: SmartDevice) -> Seq<char> {
    match d {
        SmartDevice::Thermometer(t) => "Thermometer '"@ + t.name@ + "': "@
            + t.current_temperature.text@ + " °C"@,
        SmartDevice::Socket(s) => "Socket '"@ + s.name@ + "': "@ + (if s.is_on {
            "on"@
        } else {
            "off"@
        }) + " (power: "@ + spec_socket_power_text(s) + " W)"@,
    }
}

impl SmartDevice {
    /// A shared reference to the inner socket, or `None` when the
    /// device is not a socket.
    pub fn as_socket(&self) -> (r: Option<&Socket>)
        ensures
            (r is Some) <==> self is Socket,
            r is Some ==> *r.unwrap() == self->Socket_0,
    {
        match self {
            SmartDevice::Socket(s) => Some(s),
            SmartDevice::Thermometer(_) => None,
        }
    }

    /// A mutable reference to the inner socket, or `None` when the
    /// device is not a socket.
    pub fn as_socket_mut(&mut self) -> (r: Option<&mut Socket>)
        ensures
            (r is Some) <==> (*old(self)) is Socket,
            r is None ==> *final(self) == *old(self),
            r is Some ==> *r.unwrap() == (*old(self))->Socket_0 && *final(self)
                == SmartDevice::Socket(*final(r.unwrap())),
    {
        match self {
            SmartDevice::Socket(s) => Some(s),
            SmartDevice::Thermometer(_) => None,
        }
    }

    /// A shared reference to the inner thermometer, or `None` when the
    /// device is not a thermometer.
    pub fn as_thermometer(&self) -> (r: Option<&Thermometer>)
        ensures
            (r is Some) <==> self is Thermometer,
            r is Some ==> *r.unwrap() == self->Thermometer_0,
    {
        match self {
            SmartDevice::Thermometer(t) => Some(t),
            SmartDevice::Socket(_) => None,
        }
    }

    /// A mutable reference to the inner thermometer, or `None` when the
    /// device is not a thermometer.
    pub fn as_thermometer_mut(&mut self) -> (r: Option<&mut Thermometer>)
        ensures
            (r is Some) <==> (*old(self)) is Thermometer,
            r is None ==> *final(self) == *old(self),
            r is Some ==> *r.unwrap() == (*old(self))->Thermometer_0 && *final(self)
                == SmartDevice::Thermometer(*final(r.unwrap())),
    {
        match self {
            SmartDevice::Thermometer(t) => Some(t),
            SmartDevice::Socket(_) => None,
        }
    }
}

impl From<Socket> for SmartDevice {
    fn from(socket: Socket) -> (r: SmartDevice) {
        SmartDevice::Socket(socket)
    }
}

impl vstd::std_specs::convert::FromSpecImpl<Socket> for SmartDevice {
    open spec fn obeys_from_spec() -> bool {
        true
    }

    open spec fn from_spec(v: Socket) -> SmartDevice {
        SmartDevice::Socket(v)
    }
}

impl From<Thermometer> for SmartDevice {
    fn from(therm: Thermometer) -> (r: SmartDevice) {
        SmartDevice::Thermometer(therm)
    }
}

impl vstd::std_specs::convert::FromSpecImpl<Thermometer> for SmartDevice {
    open spec fn obeys_from_spec() -> bool {
        true
    }

    open spec fn from_spec(v: Thermometer) -> SmartDevice {
        SmartDevice::Thermometer(v)
    }
}

impl Report for SmartDevice {
    open spec fn spec_report(&self) -> Seq<char> {
        spec_device_report(*self)
    }

    fn report(&self) -> (r: String) {
        match self {
            SmartDevice::Thermometer(t) => {
                let mut s = String::from_str("Thermometer '");
                s.append(t.name.as_str());
                s.append("': ");
                s.append(t.current_temperature.text.as_str());
                s.append(" °C");
                s
            },
            SmartDevice::Socket(sock) => {
                let mut s = String::from_str("Socket '");
                s.append(sock.name.as_str());
                s.append("': ");
                if sock.is_on {
                    s.append("on");
                } else {
                    s.append("off");
                }
                s.append(" (power: ");
                if sock.is_on {
                    s.append(sock.power_consumption.text.as_str());
                } else {
                    s.append("0");
                }
                s.append(" W)");
                s
            },
        }
    }
}

/// Putting a socket into the device union and downcasting again yields
/// the socket unchanged, in every field.
pub proof fn lemma_socket_round_trip(s: Socket)
    ensures
        ({
            let d: SmartDevice = vstd::std_specs::convert::FromSpec::<Socket>::from_spec(s);
            d is Socket && d->Socket_0 == s
        }),
{
}

/// Putting a thermometer into the device union and downcasting again
/// yields the thermometer unchanged, in every field.
pub proof fn lemma_thermometer_round_trip(t: Thermometer)
    ensures
        ({
            let d: SmartDevice = vstd::std_specs::convert::FromSpec::<Thermometer>::from_spec(t);
            d is Thermometer && d->Thermometer_0 == t
        }),
{
}

} // verus!
