use vstd::prelude::*;

use crate::headers::fixed_header::MqttFixedHeader;

verus! {

/// A SUBACK packet: a fixed header, a packet identifier and the granted
/// return codes.
#[derive(Debug)]
pub struct MqttSuback {
    pub header: MqttFixedHeader,
    pub packet_id: u16,
    pub rcslen: u16,
    pub rsc: String,
}

} // verus!
