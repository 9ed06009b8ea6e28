//! Errors of the composed two-level device lookup.
//!
//! Only the lookup that resolves a room and then a device can fail for
//! two distinguishable reasons, so only it returns an error value; every
//! single-level absence in the model is an empty optional instead.

use vstd::prelude::*;

verus! {

/// Why a composed room-then-device lookup failed; each variant carries
/// the offending key.
#[derive(Clone, Debug)]
pub enum SmartHomeError {
    /// No room is bound to the given key.
    RoomNotFound(String),
    /// The room exists, but no device in it is bound to the given key.
    DeviceNotFound(String),
}

/// The message text of an error.
pub open spec fn spec_error_message(e: SmartHomeError) -> Seq<char> {
    match e {
        SmartHomeError::RoomNotFound(name) => "Room '"@ + name@ + "' not found"@,
        SmartHomeError::DeviceNotFound(name) => "Device '"@ + name@ + "' not found"@,
    }
}

impl SmartHomeError {
    /// Renders the human-readable message.
    pub fn message(&self) -> (r: String)
        ensures
            r@ == spec_error_message(*self),
    {
        match self {
            SmartHomeError::RoomNotFound(name) => {
                let mut s = String::from_str("Room '");
                s.append(name.as_str());
                s.append("' not found");
                s
            },
            SmartHomeError::DeviceNotFound(name) => {
                let mut s = String::from_str("Device '");
                s.append(name.as_str());
                s.append("' not found");
                s
            },
        }
    }
}

} // verus!
