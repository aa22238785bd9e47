use vstd::prelude::*;

use crate::error::MqttError;
use crate::packets::enums::{PacketType, QosLevel};

verus! {

/// The fixed header every MQTT control packet begins with: a packet type
/// nibble, the DUP, QoS and RETAIN flag bits, and the remaining length of the
/// variable header and payload.
#[derive(Clone, Copy, Debug, PartialEq, Eq, Structural)]
pub struct FixedHeader {
    pub ptype: PacketType,
    pub dup: bool,
    /// The raw two QoS bits; 3 is representable on the wire but invalid.
    pub qos: u8,
    pub retain: bool,
    pub remaining_len: usize,
}

/// The first byte of the fixed header:
/// `(type << 4) | (dup << 3) | (qos << 1) | retain`.
pub open spec fn header_byte(t: PacketType, dup: bool, qos: u8, retain: bool) -> u8 {
    (t.spec_u8() * 16 + (if dup {
        8int
    } else {
        0int
    }) + qos * 2 + (if retain {
        1int
    } else {
        0int
    })) as u8
}

impl FixedHeader {
    /// Whether the QoS bits hold a defined level.
    pub open spec fn wf(self) -> bool {
        self.qos <= 2
    }

    pub open spec fn spec_ptype(self) -> PacketType {
        self.ptype
    }

    pub open spec fn spec_dup(self) -> bool {
        self.dup
    }

    pub open spec fn spec_qos(self) -> u8 {
        self.qos
    }

    pub open spec fn spec_retain(self) -> bool {
        self.retain
    }

    pub open spec fn spec_remaining_len(self) -> usize {
        self.remaining_len
    }

    /// The first byte this header encodes to.
    pub open spec fn spec_byte(self) -> u8 {
        header_byte(self.ptype, self.dup, self.qos, self.retain)
    }

    /// A header for the given packet type, flag bits and remaining length.
    pub fn new(packet_type: PacketType, dup: bool, qos: QosLevel, retain: bool, len: usize) -> (r:
        Self)
        ensures
            r.ptype == packet_type,
            r.dup == dup,
            r.qos == qos.spec_u8(),
            r.retain == retain,
            r.remaining_len == len,
            r.wf(),
    {
        FixedHeader { ptype: packet_type, dup, qos: qos.to_u8(), retain, remaining_len: len }
    }

    /// The first byte of the packet on the wire.
    pub fn first_byte(&self) -> (r: u8)
        requires
            self.qos <= 3,
        ensures
            r == self.spec_byte(),
    {
        self.ptype.to_u8() * 16 + (if self.dup {
            8u8
        } else {
            0u8
        }) + self.qos * 2 + (if self.retain {
            1u8
        } else {
            0u8
        })
    }

    pub fn set_packet_type(&mut self, value: PacketType)
        ensures
            *final(self) == (FixedHeader { ptype: value, ..*old(self) }),
    {
        self.ptype = value;
    }

    pub fn set_dup(&mut self, value: bool)
        ensures
            *final(self) == (FixedHeader { dup: value, ..*old(self) }),
    {
        self.dup = value;
    }

    pub fn set_qos(&mut self, value: QosLevel)
        ensures
            *final(self) == (FixedHeader { qos: value.spec_u8(), ..*old(self) }),
            final(self).wf(),
    {
        self.qos = value.to_u8();
    }

    pub fn set_retain(&mut self, value: bool)
        ensures
            *final(self) == (FixedHeader { retain: value, ..*old(self) }),
    {
        self.retain = value;
    }

    pub fn get_packet_type(&self) -> (r: Result<PacketType, MqttError>)
        ensures
            r == Ok::<PacketType, MqttError>(self.ptype),
    {
        Ok(self.ptype)
    }

    pub fn get_dup(&self) -> (r: bool)
        ensures
            r == self.dup,
    {
        self.dup
    }

    /// The QoS bits as a level; fails on the reserved value 3.
    pub fn get_qos(&self) -> (r: Result<QosLevel, MqttError>)
        ensures
            r == QosLevel::spec_from_u8(self.qos),
    {
        QosLevel::from_u8(self.qos)
    }

    pub fn get_retain(&self) -> (r: bool)
        ensures
            r == self.retain,
    {
        self.retain
    }

    pub fn get_remaing_len(&self) -> (r: usize)
        ensures
            r == self.remaining_len,
    {
        self.remaining_len
    }

    pub fn set_remain_len(&mut self, value: usize)
        ensures
            *final(self) == (FixedHeader { remaining_len: value, ..*old(self) }),
    {
        self.remaining_len = value;
    }

    /// Split the first byte of a packet into its header fields; fails when the
    /// packet type nibble is reserved. The remaining length is left at zero.
    pub fn from_byte(value: u8) -> (r: Result<Self, MqttError>)
        ensures
            r matches Ok(h) ==> PacketType::spec_from_u8(value / 16) == Ok::<
                PacketType,
                MqttError,
            >(h.ptype) && h.dup == ((value / 8) % 2 == 1) && h.qos == (value / 2) % 4 && h.retain
                == (value % 2 == 1) && h.remaining_len == 0,
            r matches Err(e) ==> PacketType::spec_from_u8(value / 16) == Err::<
                PacketType,
                MqttError,
            >(e),
    {
        match PacketType::from_u8(value / 16) {
            Ok(ptype) => Ok(
                FixedHeader {
                    ptype,
                    dup: (value / 8) % 2 == 1,
                    qos: (value / 2) % 4,
                    retain: value % 2 == 1,
                    remaining_len: 0,
                },
            ),
            Err(e) => Err(e),
        }
    }
}

impl Default for FixedHeader {
    /// The header builders start from: a PUBACK with every flag bit set and
    /// QoS 2.
    fn default() -> (r: Self)
        ensures
            r.ptype == PacketType::Puback,
            r.dup == true,
            r.qos == QosLevel::Exactly.spec_u8(),
            r.retain == true,
            r.remaining_len == 0,
            r.wf(),
    {
        FixedHeader {
            ptype: PacketType::Puback,
            dup: true,
            qos: 2,
            retain: true,
            remaining_len: 0,
        }
    }
}

/// Decomposing a composed header byte gives the fields back.
pub proof fn lemma_header_byte_roundtrip(t: PacketType, dup: bool, qos: u8, retain: bool)
    requires
        qos <= 3,
    ensures
        header_byte(t, dup, qos, retain) / 16 == t.spec_u8(),
        (header_byte(t, dup, qos, retain) / 8) % 2 == (if dup {
            1int
        } else {
            0int
        }),
        (header_byte(t, dup, qos, retain) / 2) % 4 == qos,
        header_byte(t, dup, qos, retain) % 2 == (if retain {
            1int
        } else {
            0int
        }),
{
    let tv = t.spec_u8() as int;
    let d: int = if dup {
        1
    } else {
        0
    };
    let q = qos as int;
    let r: int = if retain {
        1
    } else {
        0
    };
    let b = tv * 16 + d * 8 + q * 2 + r;
    assert(0 <= b <= 255);
    assert(header_byte(t, dup, qos, retain) == b as u8);
    assert(b / 16 == tv && (b / 8) % 2 == d && (b / 2) % 4 == q && b % 2 == r) by (nonlinear_arith)
        requires
            b == tv * 16 + d * 8 + q * 2 + r && 0 <= tv <= 15 && 0 <= d <= 1 && 0 <= q <= 3 && 0
                <= r <= 1,
    ;
}

} // verus!
