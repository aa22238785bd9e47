use vstd::prelude::*;

use crate::headers::enums::QosLevel;
use crate::headers::fixed_header::MqttFixedHeader;

verus! {

/// One SUBSCRIBE tuple: a topic filter with its length, and the requested
/// QoS.
#[derive(Debug)]
pub struct Tuples {
    pub topic_len: u16,
    pub topic: String,
    pub qos: QosLevel,
}

/// The shared shape of SUBSCRIBE and UNSUBSCRIBE: a fixed header, a packet
/// identifier and the tuples.
#[derive(Debug)]
pub struct MqttSubHeader {
    pub header: MqttFixedHeader,
    pub packet_id: u16,
    pub tuples_len: u16,
    pub tuples: Tuples,
}

} // verus!
