use vstd::prelude::*;

use crate::headers::fixed_header::MqttFixedHeader;

verus! {

/// The shared shape of PUBACK, PUBREC, PUBREL, PUBCOMP and UNSUBACK: a
/// fixed header and a two-byte packet identifier.
#[derive(Clone, Copy, Debug, PartialEq, Eq, Structural)]
pub struct MqttAck {
    pub header: MqttFixedHeader,
    pub packet_id: u16,
}

} // verus!
