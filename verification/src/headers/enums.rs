use vstd::prelude::*;

verus! {

/// MQTT control packet type: byte 1, bits 7 through 4 of the fixed header.
#[derive(Clone, Copy, Debug, PartialEq, Eq, Structural)]
pub enum PacketType {
    /// Client request to connect to the server (1).
    CONNECT,
    /// Connect acknowledgment (2).
    CONNACK,
    /// Publish message (3).
    PUBLISH,
    /// Publish acknowledgment (4).
    PUBACK,
    /// Publish received, assured delivery part 1 (5).
    PUBREC,
    /// Publish release, assured delivery part 2 (6).
    PUBREL,
    /// Publish complete, assured delivery part 3 (7).
    PUBCOMP,
    /// Client subscribe request (8).
    SUBSCRIBE,
    /// Subscribe acknowledgment (9).
    SUBACK,
    /// Unsubscribe request (10).
    UNSUBSCRIBE,
    /// Unsubscribe acknowledgment (11).
    UNSUBACK,
    /// Ping request (12).
    PINGREQ,
    /// Ping response (13).
    PINGRESP,
    /// Client is disconnecting (14).
    DISCONNECT,
}

impl PacketType {
    /// The wire value of this packet type.
    pub open spec fn spec_u8(self) -> u8 {
        match self {
            PacketType::CONNECT => 1,
            PacketType::CONNACK => 2,
            PacketType::PUBLISH => 3,
            PacketType::PUBACK => 4,
            PacketType::PUBREC => 5,
            PacketType::PUBREL => 6,
            PacketType::PUBCOMP => 7,
            PacketType::SUBSCRIBE => 8,
            PacketType::SUBACK => 9,
            PacketType::UNSUBSCRIBE => 10,
            PacketType::UNSUBACK => 11,
            PacketType::PINGREQ => 12,
            PacketType::PINGRESP => 13,
            PacketType::DISCONNECT => 14,
        }
    }

    pub fn to_u8(self) -> (r: u8)
        ensures
            r == self.spec_u8(),
    {
        match self {
            PacketType::CONNECT => 1,
            PacketType::CONNACK => 2,
            PacketType::PUBLISH => 3,
            PacketType::PUBACK => 4,
            PacketType::PUBREC => 5,
            PacketType::PUBREL => 6,
            PacketType::PUBCOMP => 7,
            PacketType::SUBSCRIBE => 8,
            PacketType::SUBACK => 9,
            PacketType::UNSUBSCRIBE => 10,
            PacketType::UNSUBACK => 11,
            PacketType::PINGREQ => 12,
            PacketType::PINGRESP => 13,
            PacketType::DISCONNECT => 14,
        }
    }

    /// The packet type a nibble encodes; values 1 through 14 are accepted.
    pub fn from_u8(value: u8) -> (r: Result<PacketType, ()>)
        ensures
            r matches Ok(t) ==> 1 <= value <= 14 && t.spec_u8() == value,
            r is Err <==> (value == 0 || value > 14),
    {
        match value {
            1 => Ok(PacketType::CONNECT),
            2 => Ok(PacketType::CONNACK),
            3 => Ok(PacketType::PUBLISH),
            4 => Ok(PacketType::PUBACK),
            5 => Ok(PacketType::PUBREC),
            6 => Ok(PacketType::PUBREL),
            7 => Ok(PacketType::PUBCOMP),
            8 => Ok(PacketType::SUBSCRIBE),
            9 => Ok(PacketType::SUBACK),
            10 => Ok(PacketType::UNSUBSCRIBE),
            11 => Ok(PacketType::UNSUBACK),
            12 => Ok(PacketType::PINGREQ),
            13 => Ok(PacketType::PINGRESP),
            14 => Ok(PacketType::DISCONNECT),
            _ => Err(()),
        }
    }
}

/// Quality of service level.
#[derive(Clone, Copy, Debug, PartialEq, Eq, Structural)]
pub enum QosLevel {
    /// QoS 0: at most once delivery.
    AtMostOnce,
    /// QoS 1: at least once delivery.
    AtLeastOnce,
    /// QoS 2: exactly once delivery.
    ExactlyOnce,
}

impl QosLevel {
    /// The wire value of this QoS level.
    pub open spec fn spec_u8(self) -> u8 {
        match self {
            QosLevel::AtMostOnce => 0,
            QosLevel::AtLeastOnce => 1,
            QosLevel::ExactlyOnce => 2,
        }
    }

    pub fn to_u8(self) -> (r: u8)
        ensures
            r == self.spec_u8(),
    {
        match self {
            QosLevel::AtMostOnce => 0,
            QosLevel::AtLeastOnce => 1,
            QosLevel::ExactlyOnce => 2,
        }
    }

    pub fn from_u8(value: u8) -> (r: Result<QosLevel, ()>)
        ensures
            r matches Ok(q) ==> q.spec_u8() == value,
            r is Err <==> value > 2,
    {
        match value {
            0 => Ok(QosLevel::AtMostOnce),
            1 => Ok(QosLevel::AtLeastOnce),
            2 => Ok(QosLevel::ExactlyOnce),
            _ => Err(()),
        }
    }
}

} // verus!
