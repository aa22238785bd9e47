use vstd::prelude::*;

use crate::error::MqttError;

verus! {

/// MQTT control packet type, the high nibble of the fixed header's first byte.
#[derive(Clone, Copy, Debug, PartialEq, Eq, Structural)]
pub enum PacketType {
    /// Client request to connect to the server (1).
    Connect,
    /// Connect acknowledgment (2).
    Connack,
    /// Publish message (3).
    Publish,
    /// Publish acknowledgment (4).
    Puback,
    /// Publish received, assured delivery part 1 (5).
    Pubrec,
    /// Publish release, assured delivery part 2 (6).
    Pubrel,
    /// Publish complete, assured delivery part 3 (7).
    Pubcomp,
    /// Client subscribe request (8).
    Subscribe,
    /// Subscribe acknowledgment (9).
    Suback,
    /// Unsubscribe request (10).
    Unsubscribe,
    /// Unsubscribe acknowledgment (11).
    Unsuback,
    /// Ping request (12).
    PingReq,
    /// Ping response (13).
    PingResp,
    /// Client is disconnecting (14).
    Disconnect,
    /// Authentication exchange (15); reserved in MQTT 3.1.1.
    Auth,
}

impl PacketType {
    /// The wire value of this packet type.
    pub open spec fn spec_u8(self) -> u8 {
        match self {
            PacketType::Connect => 1,
            PacketType::Connack => 2,
            PacketType::Publish => 3,
            PacketType::Puback => 4,
            PacketType::Pubrec => 5,
            PacketType::Pubrel => 6,
            PacketType::Pubcomp => 7,
            PacketType::Subscribe => 8,
            PacketType::Suback => 9,
            PacketType::Unsubscribe => 10,
            PacketType::Unsuback => 11,
            PacketType::PingReq => 12,
            PacketType::PingResp => 13,
            PacketType::Disconnect => 14,
            PacketType::Auth => 15,
        }
    }

    /// The packet type encoded by a nibble value, if any.
    pub open spec fn spec_from_u8(value: u8) -> Result<PacketType, MqttError> {
        if value == 1 {
            Ok(PacketType::Connect)
        } else if value == 2 {
            Ok(PacketType::Connack)
        } else if value == 3 {
            Ok(PacketType::Publish)
        } else if value == 4 {
            Ok(PacketType::Puback)
        } else if value == 5 {
            Ok(PacketType::Pubrec)
        } else if value == 6 {
            Ok(PacketType::Pubrel)
        } else if value == 7 {
            Ok(PacketType::Pubcomp)
        } else if value == 8 {
            Ok(PacketType::Subscribe)
        } else if value == 9 {
            Ok(PacketType::Suback)
        } else if value == 10 {
            Ok(PacketType::Unsubscribe)
        } else if value == 11 {
            Ok(PacketType::Unsuback)
        } else if value == 12 {
            Ok(PacketType::PingReq)
        } else if value == 13 {
            Ok(PacketType::PingResp)
        } else if value == 14 {
            Ok(PacketType::Disconnect)
        } else {
            Err(MqttError::Convertion)
        }
    }

    pub fn to_u8(self) -> (r: u8)
        ensures
            r == self.spec_u8(),
    {
        match self {
            PacketType::Connect => 1,
            PacketType::Connack => 2,
            PacketType::Publish => 3,
            PacketType::Puback => 4,
            PacketType::Pubrec => 5,
            PacketType::Pubrel => 6,
            PacketType::Pubcomp => 7,
            PacketType::Subscribe => 8,
            PacketType::Suback => 9,
            PacketType::Unsubscribe => 10,
            PacketType::Unsuback => 11,
            PacketType::PingReq => 12,
            PacketType::PingResp => 13,
            PacketType::Disconnect => 14,
            PacketType::Auth => 15,
        }
    }

    /// Decode a packet-type nibble; values 1 through 14 are accepted.
    pub fn from_u8(value: u8) -> (r: Result<PacketType, MqttError>)
        ensures
            r == Self::spec_from_u8(value),
    {
        match value {
            1 => Ok(PacketType::Connect),
            2 => Ok(PacketType::Connack),
            3 => Ok(PacketType::Publish),
            4 => Ok(PacketType::Puback),
            5 => Ok(PacketType::Pubrec),
            6 => Ok(PacketType::Pubrel),
            7 => Ok(PacketType::Pubcomp),
            8 => Ok(PacketType::Subscribe),
            9 => Ok(PacketType::Suback),
            10 => Ok(PacketType::Unsubscribe),
            11 => Ok(PacketType::Unsuback),
            12 => Ok(PacketType::PingReq),
            13 => Ok(PacketType::PingResp),
            14 => Ok(PacketType::Disconnect),
            _ => Err(MqttError::Convertion),
        }
    }
}

/// Quality of service level of a PUBLISH or a subscription grant.
#[derive(Clone, Copy, Debug, PartialEq, Eq, Structural)]
pub enum QosLevel {
    /// QoS 0: at most once delivery.
    AtMost,
    /// QoS 1: at least once delivery.
    AtLeast,
    /// QoS 2: exactly once delivery.
    Exactly,
}

impl QosLevel {
    /// The wire value of this QoS level.
    pub open spec fn spec_u8(self) -> u8 {
        match self {
            QosLevel::AtMost => 0,
            QosLevel::AtLeast => 1,
            QosLevel::Exactly => 2,
        }
    }

    /// The QoS level encoded by a byte, if any.
    pub open spec fn spec_from_u8(value: u8) -> Result<QosLevel, MqttError> {
        if value == 0 {
            Ok(QosLevel::AtMost)
        } else if value == 1 {
            Ok(QosLevel::AtLeast)
        } else if value == 2 {
            Ok(QosLevel::Exactly)
        } else {
            Err(MqttError::Convertion)
        }
    }

    pub fn to_u8(self) -> (r: u8)
        ensures
            r == self.spec_u8(),
    {
        match self {
            QosLevel::AtMost => 0,
            QosLevel::AtLeast => 1,
            QosLevel::Exactly => 2,
        }
    }

    pub fn from_u8(value: u8) -> (r: Result<QosLevel, MqttError>)
        ensures
            r == Self::spec_from_u8(value),
    {
        match value {
            0 => Ok(QosLevel::AtMost),
            1 => Ok(QosLevel::AtLeast),
            2 => Ok(QosLevel::Exactly),
            _ => Err(MqttError::Convertion),
        }
    }

    /// The smaller of two QoS levels, by wire value.
    pub open spec fn spec_min(self, other: QosLevel) -> QosLevel {
        if self.spec_u8() <= other.spec_u8() {
            self
        } else {
            other
        }
    }

    /// Deliveries run at the smaller of the granted and the published QoS.
    pub fn min_with(self, other: QosLevel) -> (r: QosLevel)
        ensures
            r == self.spec_min(other),
    {
        if self.to_u8() <= other.to_u8() {
            self
        } else {
            other
        }
    }
}

/// Return code of a CONNACK packet.
#[derive(Clone, Copy, Debug, PartialEq, Eq, Structural)]
pub enum ConnectReturnCode {
    /// Connection accepted (0x00).
    Accepted,
    /// The server does not support the requested protocol level (0x01).
    V4UnacceptableProtocal,
    /// The client identifier is correct UTF-8 but not allowed (0x02).
    V4IdentifierRejected,
    /// The MQTT service is unavailable (0x03).
    V4ServerUnavailable,
    /// The user name or password is malformed (0x04).
    V4BadUserNameOrPassword,
    /// The client is not authorized to connect (0x05).
    V4NotAuthorized,
}

impl ConnectReturnCode {
    /// The wire value of this return code.
    pub open spec fn spec_u8(self) -> u8 {
        match self {
            ConnectReturnCode::Accepted => 0,
            ConnectReturnCode::V4UnacceptableProtocal => 1,
            ConnectReturnCode::V4IdentifierRejected => 2,
            ConnectReturnCode::V4ServerUnavailable => 3,
            ConnectReturnCode::V4BadUserNameOrPassword => 4,
            ConnectReturnCode::V4NotAuthorized => 5,
        }
    }

    /// The return code encoded by a byte, if any.
    pub open spec fn spec_from_u8(value: u8) -> Result<ConnectReturnCode, MqttError> {
        if value == 0 {
            Ok(ConnectReturnCode::Accepted)
        } else if value == 1 {
            Ok(ConnectReturnCode::V4UnacceptableProtocal)
        } else if value == 2 {
            Ok(ConnectReturnCode::V4IdentifierRejected)
        } else if value == 3 {
            Ok(ConnectReturnCode::V4ServerUnavailable)
        } else if value == 4 {
            Ok(ConnectReturnCode::V4BadUserNameOrPassword)
        } else if value == 5 {
            Ok(ConnectReturnCode::V4NotAuthorized)
        } else {
            Err(MqttError::Convertion)
        }
    }

    pub fn to_u8(self) -> (r: u8)
        ensures
            r == self.spec_u8(),
    {
        match self {
            ConnectReturnCode::Accepted => 0,
            ConnectReturnCode::V4UnacceptableProtocal => 1,
            ConnectReturnCode::V4IdentifierRejected => 2,
            ConnectReturnCode::V4ServerUnavailable => 3,
            ConnectReturnCode::V4BadUserNameOrPassword => 4,
            ConnectReturnCode::V4NotAuthorized => 5,
        }
    }

    pub fn from_u8(value: u8) -> (r: Result<ConnectReturnCode, MqttError>)
        ensures
            r == Self::spec_from_u8(value),
    {
        match value {
            0 => Ok(ConnectReturnCode::Accepted),
            1 => Ok(ConnectReturnCode::V4UnacceptableProtocal),
            2 => Ok(ConnectReturnCode::V4IdentifierRejected),
            3 => Ok(ConnectReturnCode::V4ServerUnavailable),
            4 => Ok(ConnectReturnCode::V4BadUserNameOrPassword),
            5 => Ok(ConnectReturnCode::V4NotAuthorized),
            _ => Err(MqttError::Convertion),
        }
    }
}

impl Default for ConnectReturnCode {
    fn default() -> (r: Self)
        ensures
            r == ConnectReturnCode::Accepted,
    {
        ConnectReturnCode::Accepted
    }
}

/// Return code granted per SUBSCRIBE tuple, one byte each in the SUBACK payload.
#[derive(Clone, Copy, Debug, PartialEq, Eq, Structural)]
pub enum SubackReturnCode {
    /// Subscription accepted at QoS 0 (0x00).
    SuccessQosZero,
    /// Subscription accepted at QoS 1 (0x01).
    SuccessQosOne,
    /// Subscription accepted at QoS 2 (0x02).
    SuccessQosTwo,
    /// Subscription refused (0x80).
    Failure,
}

impl SubackReturnCode {
    /// The wire value of this return code.
    pub open spec fn spec_u8(self) -> u8 {
        match self {
            SubackReturnCode::SuccessQosZero => 0x00,
            SubackReturnCode::SuccessQosOne => 0x01,
            SubackReturnCode::SuccessQosTwo => 0x02,
            SubackReturnCode::Failure => 0x80,
        }
    }

    /// The return code encoded by a byte, if any.
    pub open spec fn spec_from_u8(value: u8) -> Result<SubackReturnCode, MqttError> {
        if value == 0x00 {
            Ok(SubackReturnCode::SuccessQosZero)
        } else if value == 0x01 {
            Ok(SubackReturnCode::SuccessQosOne)
        } else if value == 0x02 {
            Ok(SubackReturnCode::SuccessQosTwo)
        } else if value == 0x80 {
            Ok(SubackReturnCode::Failure)
        } else {
            Err(MqttError::Convertion)
        }
    }

    pub fn to_u8(&self) -> (r: u8)
        ensures
            r == self.spec_u8(),
    {
        match self {
            SubackReturnCode::SuccessQosZero => 0x00,
            SubackReturnCode::SuccessQosOne => 0x01,
            SubackReturnCode::SuccessQosTwo => 0x02,
            SubackReturnCode::Failure => 0x80,
        }
    }

    pub fn from_u8(value: u8) -> (r: Result<SubackReturnCode, MqttError>)
        ensures
            r == Self::spec_from_u8(value),
    {
        match value {
            0x00 => Ok(SubackReturnCode::SuccessQosZero),
            0x01 => Ok(SubackReturnCode::SuccessQosOne),
            0x02 => Ok(SubackReturnCode::SuccessQosTwo),
            0x80 => Ok(SubackReturnCode::Failure),
            _ => Err(MqttError::Convertion),
        }
    }

    /// The grant that answers a request for the given QoS.
    pub fn for_qos(qos: QosLevel) -> (r: SubackReturnCode)
        ensures
            r == (match qos {
                QosLevel::AtMost => SubackReturnCode::SuccessQosZero,
                QosLevel::AtLeast => SubackReturnCode::SuccessQosOne,
                QosLevel::Exactly => SubackReturnCode::SuccessQosTwo,
            }),
    {
        match qos {
            QosLevel::AtMost => SubackReturnCode::SuccessQosZero,
            QosLevel::AtLeast => SubackReturnCode::SuccessQosOne,
            QosLevel::Exactly => SubackReturnCode::SuccessQosTwo,
        }
    }
}

/// The protocol level a CONNECT asks for; this broker serves level 4,
/// MQTT 3.1.1.
#[derive(Clone, Copy, Debug, PartialEq, Eq, Structural)]
pub enum ProtocalVersion {
    Four,
    Five,
    Unknown,
}

impl ProtocalVersion {
    /// The wire value of this protocol level.
    pub open spec fn spec_u8(self) -> u8 {
        match self {
            ProtocalVersion::Four => 4,
            ProtocalVersion::Five => 5,
            ProtocalVersion::Unknown => 0,
        }
    }

    pub fn to_u8(self) -> (r: u8)
        ensures
            r == self.spec_u8(),
    {
        match self {
            ProtocalVersion::Four => 4,
            ProtocalVersion::Five => 5,
            ProtocalVersion::Unknown => 0,
        }
    }

    /// The protocol level named by a byte; anything but 4 and 5 is unknown.
    pub fn from_u8(value: u8) -> (r: ProtocalVersion)
        ensures
            r == (if value == 4 {
                ProtocalVersion::Four
            } else if value == 5 {
                ProtocalVersion::Five
            } else {
                ProtocalVersion::Unknown
            }),
    {
        match value {
            4 => ProtocalVersion::Four,
            5 => ProtocalVersion::Five,
            _ => ProtocalVersion::Unknown,
        }
    }
}

} // verus!
