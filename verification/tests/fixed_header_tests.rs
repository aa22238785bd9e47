use mqtt_broker::headers::enums::{PacketType as LegacyPacketType, QosLevel as LegacyQosLevel};
use mqtt_broker::headers::fixed_header::MqttFixedHeader;
use mqtt_broker::packets::enums::{PacketType, QosLevel};
use mqtt_broker::packets::fixed_header::FixedHeader;
use mqtt_broker::packets::utils::decode_length;

#[test]
fn fixed_header_test_header_byte_retain_default() {
    let header = MqttFixedHeader::default();

    assert!(header.get_retain());

    let header2 = FixedHeader::default();
    assert!(header2.get_retain());
}

#[test]
fn fixed_header_test_header_byte_retain_set() {
    let mut header = MqttFixedHeader::default();

    header.set_retain(false);

    assert!(!header.get_retain());

    let mut header2 = FixedHeader::default();
    header2.set_retain(false);
    assert!(!header2.get_retain());
}

#[test]
fn fixed_header_test_header_byte_qos_get() {
    let header = MqttFixedHeader::default();

    assert_eq!(header.get_qos().unwrap(), LegacyQosLevel::ExactlyOnce);

    let header2 = FixedHeader::default();
    assert_eq!(header2.get_qos().unwrap(), QosLevel::Exactly);
}

#[test]
fn fixed_header_test_header_byte_qos_set() {
    let mut header = MqttFixedHeader::default();

    header.set_qos(LegacyQosLevel::AtLeastOnce);

    assert_eq!(header.get_qos().unwrap(), LegacyQosLevel::AtLeastOnce);

    let mut header2 = FixedHeader::default();
    header2.set_qos(QosLevel::AtLeast);
    assert_eq!(header2.get_qos().unwrap(), QosLevel::AtLeast);
}

#[test]
fn fixed_header_test_header_byte_dup_get() {
    let header = MqttFixedHeader::default();
    assert!(header.get_dup());

    let header2 = FixedHeader::default();
    assert!(header2.get_dup());
}

#[test]
fn fixed_header_test_header_byte_dup_set() {
    let mut header = MqttFixedHeader::default();

    header.set_dup(false);

    assert!(!header.get_dup());

    let mut header2 = FixedHeader::default();
    header2.set_dup(false);
    assert!(!header2.get_dup());
}

#[test]
fn fixed_header_test_header_byte_ptype_get() {
    let header = MqttFixedHeader::default();
    assert_eq!(header.get_type().unwrap(), LegacyPacketType::PUBACK);

    let header2 = FixedHeader::default();
    assert_eq!(header2.get_packet_type().unwrap(), PacketType::Puback);
}

#[test]
fn fixed_header_test_header_byte_ptype_set() {
    let mut header = MqttFixedHeader::default();

    header.set_type(LegacyPacketType::DISCONNECT);

    assert_eq!(header.get_type().unwrap(), LegacyPacketType::DISCONNECT);

    let mut header2 = FixedHeader::default();
    header2.set_packet_type(PacketType::Disconnect);
    assert_eq!(header2.get_packet_type().unwrap(), PacketType::Disconnect);
}

#[test]
fn test_parse_fixed_header() {
    // Fixed Header
    // length: 7

    let data: [u8; 2] = [0x10, 0x07];

    let header = FixedHeader::from_byte(data[0]).expect("Failed to parse header");

    assert_eq!(
        header.get_packet_type().expect("Failed to get packet type"),
        PacketType::Connect
    );
    assert_eq!(header.get_qos().expect("Failed to get qos"), QosLevel::AtMost);
    assert!(!header.get_dup());
    assert!(!header.get_retain());

    let (len, consumed) = decode_length(&data, 1).expect("Failed to read length");
    assert_eq!(len, 7);
    assert_eq!(consumed, 1);
}
