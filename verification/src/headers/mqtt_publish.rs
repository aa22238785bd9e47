use vstd::prelude::*;

use crate::headers::fixed_header::MqttFixedHeader;

verus! {

/// A PUBLISH packet: topic and payload with their lengths, and the packet
/// identifier carried above QoS 0.
#[derive(Debug)]
pub struct MqttPublish {
    pub header: MqttFixedHeader,
    pub packet_id: u16,
    pub topiclen: u16,
    pub topic: String,
    pub payload_len: u16,
    pub payload: String,
}

} // verus!
