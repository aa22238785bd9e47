use vstd::prelude::*;

use crate::headers::fixed_header::MqttFixedHeader;

verus! {

/// Return code of a CONNACK.
#[derive(Clone, Copy, Debug, PartialEq, Eq, Structural)]
pub enum ConnectReturnCode {
    /// Connection accepted (0x00).
    Accepted,
    /// The requested protocol level is not served (0x01).
    RefusedBadProtocol,
    /// The client identifier is not allowed (0x02).
    RefusedIdentReject,
    /// The MQTT service is unavailable (0x03).
    RefusedServerUnavaliable,
    /// The user name or password is malformed (0x04).
    RefusedBadCred,
    /// The client is not authorized to connect (0x05).
    RefusedUnauthorized,
}

/// The CONNACK acknowledge-flags byte; bit 0 is session present.
#[derive(Clone, Copy, Debug, Default, PartialEq, Eq, Structural)]
pub struct AcknowledgeFlags {
    pub present: bool,
}

impl AcknowledgeFlags {
    pub fn session_present(&self) -> (r: bool)
        ensures
            r == self.present,
    {
        self.present
    }

    pub fn set_session_present(&mut self, value: bool)
        ensures
            final(self).present == value,
    {
        self.present = value;
    }
}

/// A CONNACK packet: its fixed header, acknowledge flags and return code.
#[derive(Debug)]
pub struct MqttConnack {
    pub header: MqttFixedHeader,
    pub acknowledge_flags: AcknowledgeFlags,
    pub rc: ConnectReturnCode,
}

} // verus!
