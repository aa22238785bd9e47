use vstd::prelude::*;

use crate::headers::enums::{PacketType, QosLevel};

verus! {

/// The first byte of the fixed header, held field by field: the packet
/// type in bits 7 through 4, then DUP, the two QoS bits, and RETAIN.
#[derive(Clone, Copy, Debug, PartialEq, Eq, Structural)]
pub struct MqttFixedHeader {
    pub ptype: PacketType,
    pub dup: bool,
    pub qos: QosLevel,
    pub retain: bool,
}

impl MqttFixedHeader {
    /// A header for a packet type with the given PUBLISH flag bits.
    pub fn new(packet_type: PacketType, dup: bool, qos: QosLevel, retain: bool) -> (r: Self)
        ensures
            r == (MqttFixedHeader { ptype: packet_type, dup, qos, retain }),
    {
        MqttFixedHeader { ptype: packet_type, dup, qos, retain }
    }

    /// The header builders start from: a PUBACK with every flag bit set and
    /// QoS 2.
    pub fn default() -> (r: Self)
        ensures
            r == (MqttFixedHeader {
                ptype: PacketType::PUBACK,
                dup: true,
                qos: QosLevel::ExactlyOnce,
                retain: true,
            }),
    {
        MqttFixedHeader {
            ptype: PacketType::PUBACK,
            dup: true,
            qos: QosLevel::ExactlyOnce,
            retain: true,
        }
    }

    pub fn set_retain(&mut self, value: bool)
        ensures
            *final(self) == (MqttFixedHeader { retain: value, ..*old(self) }),
    {
        self.retain = value;
    }

    pub fn get_retain(&self) -> (r: bool)
        ensures
            r == self.retain,
    {
        self.retain
    }

    pub fn set_qos(&mut self, value: QosLevel)
        ensures
            *final(self) == (MqttFixedHeader { qos: value, ..*old(self) }),
    {
        self.qos = value;
    }

    pub fn get_qos(&self) -> (r: Result<QosLevel, ()>)
        ensures
            r == Ok::<QosLevel, ()>(self.qos),
    {
        Ok(self.qos)
    }

    pub fn set_dup(&mut self, value: bool)
        ensures
            *final(self) == (MqttFixedHeader { dup: value, ..*old(self) }),
    {
        self.dup = value;
    }

    pub fn get_dup(&self) -> (r: bool)
        ensures
            r == self.dup,
    {
        self.dup
    }

    pub fn set_type(&mut self, value: PacketType)
        ensures
            *final(self) == (MqttFixedHeader { ptype: value, ..*old(self) }),
    {
        self.ptype = value;
    }

    pub fn get_type(&self) -> (r: Result<PacketType, ()>)
        ensures
            r == Ok::<PacketType, ()>(self.ptype),
    {
        Ok(self.ptype)
    }

    /// Split the first byte of a packet into its header fields; fails when
    /// the packet type nibble or the QoS bits are out of range.
    pub fn from_byte(value: u8) -> (r: Result<Self, ()>)
        ensures
            r matches Ok(h) ==> h.ptype.spec_u8() == value / 16 && h.dup == ((value / 8) % 2 == 1)
                && h.qos.spec_u8() == (value / 2) % 4 && h.retain == (value % 2 == 1),
    {
        let ptype = match PacketType::from_u8(value / 16) {
            Ok(t) => t,
            Err(_) => {
                return Err(());
            },
        };
        let qos = match QosLevel::from_u8((value / 2) % 4) {
            Ok(q) => q,
            Err(_) => {
                return Err(());
            },
        };
        Ok(
            MqttFixedHeader {
                ptype,
                dup: (value / 8) % 2 == 1,
                qos,
                retain: value % 2 == 1,
            },
        )
    }
}

} // verus!
