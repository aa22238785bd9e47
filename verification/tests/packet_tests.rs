use mqtt_broker::error::MqttError;
use mqtt_broker::packets::connect::Flags;
use mqtt_broker::packets::enums::{PacketType, QosLevel};
use mqtt_broker::packets::fixed_header::FixedHeader;
use mqtt_broker::packets::packet::{Packet, VariableHeader};
use mqtt_broker::packets::utils::encode_length;

#[test]
fn test_unpack_connect_packet() {
    let data = vec![
        0x10, // Fixed Header
        0x1e, // Length
        0x00, 0x04, 0x4d, 0x51, 0x54, 0x54, // MQTT
        0x04, // version
        0xc2, // Connect Flags
        0x00, 0x3c, // keepalive (60)
        0x00, 0x04, 0x6d, 0x79, 0x50, 0x79, // Client Id with length (4, "myPy")
        0x00, 0x06, 0x63, 0x6c, 0x69, 0x65, 0x6e,
        0x74, // Username with length (6,"client")
        0x00, 0x04, 0x70, 0x61, 0x73, 0x73, // Password with length (4,"pass")
    ];

    let (packet, _) = Packet::unpack(&data).expect("Failed to parse connect packet");

    if let VariableHeader::Connect {
        flags,
        keepalive,
        username,
        password,
        client_id,
        ..
    } = packet.variable
    {
        assert_eq!(packet.fixed.get_remaing_len(), 30);

        assert_eq!(keepalive, 60);

        assert!(flags.clean_session());
        assert!(flags.has_password());
        assert!(flags.has_username());
        assert!(!flags.will());
        assert_eq!(flags.will_qos().expect("QOS"), QosLevel::AtMost);
        assert!(!flags.will_retain());

        assert!(username.is_some());
        assert!(password.is_some());

        let usr = username.expect("Failed to get user");
        let psd = password.expect("Failed to get password");

        assert_eq!(usr.len(), 6, "Body Username is not of length '4'");
        assert_eq!(psd.len(), 4, "Body Password is not of length '4'");
        assert_eq!(&client_id, "myPy");
        assert_eq!(&psd, "pass");
        assert_eq!(&usr, "client");

        assert_eq!(keepalive, 60)
    } else {
        panic!("Packet was not a connect packet");
    }
}

#[test]
fn test_unpack_publish_packet() {
    let data = vec![
        0x33, // Fixed Header QOS 1, Retain 1
        0x0E, // Length 14
        0x00, 0x04, 0x69, 0x6e, 0x66, 0x6f, // topic "info"
        0x00, 0x02, // packet_id: 2
        0x43, 0x65, 0x64, 0x61, 0x6c, 0x6f, // Message "Cedalo"
    ];

    let (packet, _) = Packet::unpack(&data).expect("Failed to parse publish packet");

    if let VariableHeader::Publish {
        packet_id,
        payload,
        topic,
    } = packet.variable
    {
        assert_eq!(packet.fixed.get_remaing_len(), 14);

        assert_eq!(
            packet.fixed.get_qos().expect("Failed to get QOS"),
            QosLevel::AtLeast
        );
        assert!(packet.fixed.get_retain());

        assert_eq!(&topic, "info");

        assert!(packet_id.is_some());
        assert_eq!(packet_id.expect("Failed to get packet id"), 2);

        assert_eq!(payload.len(), 6);

        let s = String::from_utf8(payload).expect("Failed to parse string");

        assert_eq!(&s, "Cedalo");
    } else {
        panic!("Invalid packet type");
    }
}

#[test]
fn test_unpack_subscribe_packet() {
    let data = vec![
        0x82, // Header
        0x0C, // Len
        0x00, 0x01, // pkt id
        // Start Tubles
        0x00, 0x07, 0x6d, 0x79, 0x74, 0x6f, 0x70, 0x69, 0x63, // String "mytopic"
        0x01, // Qos
    ];

    let (packet, _) = Packet::unpack(&data).expect("Failed to parse subscribe packet");

    if let VariableHeader::Subscribe { packet_id, tuples } = packet.variable {
        assert_eq!(packet.fixed.get_remaing_len(), 12);

        assert_eq!(packet_id, 1);

        assert_eq!(tuples.len(), 1);
        assert_eq!(tuples[0].0, "mytopic");
        assert_eq!(tuples[0].1, QosLevel::AtLeast);
    } else {
        panic!("Invalid packet");
    }
}

#[test]
fn test_unpack_unsubscribe_packet() {
    let data = vec![
        0xA2, // Fixed Header
        0x08, // length
        0x00, 0x01, // pkt_id = 1
        0x00, 0x04, 0x69, 0x6e, 0x66, 0x6f, // string "info"
    ];

    let (packet, _) = Packet::unpack(&data).expect("Failed to parse unsubscribe packet");

    if let VariableHeader::Unsubscribe { packet_id, tuples } = packet.variable {
        assert_eq!(packet.fixed.get_remaing_len(), 8, "remaing packet length");

        assert_eq!(packet_id, 1);

        assert_eq!(tuples.len(), 1);
        assert_eq!(tuples[0], "info");
    } else {
        panic!("Invalid packet");
    }
}

#[test]
fn test_pack_connect_packet() {
    let header = FixedHeader::new(PacketType::Connect, false, QosLevel::AtMost, false, 30);

    let flags = Flags::new(true, false, QosLevel::AtMost, false, true, true);

    let variable = VariableHeader::Connect {
        flags,
        keepalive: 60,
        client_id: "myPy".into(),
        username: Some("client".into()),
        password: Some("pass".into()),
        will_topic: None,
        will_message: None,
        protocol_version: mqtt_broker::packets::enums::ProtocalVersion::Four,
    };

    let packet = Packet::new(header, variable);

    let bytes = packet.pack();

    let data: [u8; 32] = [
        0x10, // Fixed Header
        0x1e, // Length
        0x00, 0x04, 0x4d, 0x51, 0x54, 0x54, // MQTT
        0x04, // version
        0xc2, // Connect Flags
        0x00, 0x3c, // keepalive (60)
        0x00, 0x04, 0x6d, 0x79, 0x50, 0x79, // Client Id with length (4, "myPy")
        0x00, 0x06, 0x63, 0x6c, 0x69, 0x65, 0x6e,
        0x74, // Username with length (6,"client")
        0x00, 0x04, 0x70, 0x61, 0x73, 0x73, // Password with length (4,"pass")
    ];

    assert_eq!(data.to_vec(), bytes)
}

#[test]
fn test_pack_publish_packet() {
    let payload: [u8; 6] = [0x43, 0x65, 0x64, 0x61, 0x6c, 0x6f];

    let packet = Packet::make_publish(
        false,
        QosLevel::AtLeast,
        true,
        "info".into(),
        Some(2),
        payload.to_vec(),
    );

    let data: [u8; 16] = [
        0x33, // Fixed Header QOS 1, Retain 1
        0x0E, // Length 14
        0x00, 0x04, 0x69, 0x6e, 0x66, 0x6f, // topic "info"
        0x00, 0x02, // packet_id: 2
        0x43, 0x65, 0x64, 0x61, 0x6c, 0x6f, // Message "Cedalo"
    ];

    assert_eq!(data.to_vec(), packet);
}

#[test]
fn test_pack_subscribe_packet() {
    let header = FixedHeader::new(PacketType::Subscribe, false, QosLevel::AtLeast, false, 12);

    let v = VariableHeader::Subscribe {
        packet_id: 1,
        tuples: vec![("mytopic".into(), QosLevel::AtLeast)],
    };

    let packet = Packet::new(header, v).pack();

    let data: [u8; 14] = [
        0x82, // Header
        0x0C, // Len
        0x00, 0x01, // pkt id
        // Start Tubles
        0x00, 0x07, 0x6d, 0x79, 0x74, 0x6f, 0x70, 0x69, 0x63, // String "mytopic"
        0x01, // Qos
    ];

    assert_eq!(data.to_vec(), packet);
}

#[test]
fn test_pack_unsubscribe_packet() {
    let header = FixedHeader::new(PacketType::Unsubscribe, false, QosLevel::AtLeast, false, 8);

    let v = VariableHeader::Unsubscribe {
        packet_id: 1,
        tuples: vec!["info".into()],
    };

    let packet = Packet::new(header, v).pack();

    let data: [u8; 10] = [
        0xA2, // Fixed Header
        0x08, // length
        0x00, 0x01, // pkt_id = 1
        0x00, 0x04, 0x69, 0x6e, 0x66, 0x6f, // string "info"
    ];

    assert_eq!(data.to_vec(), packet);
}

#[test]
fn test_unpack_bad_protocol_name() {
    let data = vec![
        0x10, 0x0a, 0x00, 0x04, 0x4d, 0x51, 0x54, 0x51, // "MQTQ"
        0x04, 0x02, 0x00, 0x3c,
    ];
    assert_eq!(Packet::unpack(&data).unwrap_err(), MqttError::UnknownProtocol);
}

#[test]
fn test_unpack_bad_protocol_level() {
    let data = vec![
        0x10, 0x0c, 0x00, 0x04, 0x4d, 0x51, 0x54, 0x54, // "MQTT"
        0x05, // level 5
        0x02, 0x00, 0x3c, 0x00, 0x00,
    ];
    assert_eq!(
        Packet::unpack(&data).unwrap_err(),
        MqttError::UnacceptableProtocolLevel
    );
}

#[test]
fn test_unpack_empty_client_id_without_clean_session() {
    let data = vec![
        0x10, 0x0c, 0x00, 0x04, 0x4d, 0x51, 0x54, 0x54, // "MQTT"
        0x04, // level 4
        0x00, // flags: clean session off
        0x00, 0x3c, // keepalive
        0x00, 0x00, // empty client id
    ];
    assert_eq!(
        Packet::unpack(&data).unwrap_err(),
        MqttError::ClientIdentifierRejected
    );
}

#[test]
fn test_unpack_reserved_flag_bit() {
    let data = vec![
        0x10, 0x0c, 0x00, 0x04, 0x4d, 0x51, 0x54, 0x54, 0x04,
        0x03, // flags: reserved bit set
        0x00, 0x3c, 0x00, 0x00,
    ];
    assert_eq!(Packet::unpack(&data).unwrap_err(), MqttError::MalformedHeader);
}

#[test]
fn test_unpack_truncated_packet() {
    // The remaining length claims more bytes than are supplied.
    let data = vec![0x10, 0x1e, 0x00, 0x04];
    assert_eq!(
        Packet::unpack(&data).unwrap_err(),
        MqttError::MalformedRemaingLength
    );
}

#[test]
fn test_unpack_empty_subscribe() {
    // A SUBSCRIBE with a packet id and no tuples is a protocol violation.
    let data = vec![0x82, 0x02, 0x00, 0x01];
    assert_eq!(Packet::unpack(&data).unwrap_err(), MqttError::ProtocolViolation);
}

#[test]
fn test_unpack_bad_subscribe_qos() {
    let data = vec![
        0x82, 0x07, 0x00, 0x01, 0x00, 0x02, 0x61, 0x62, // filter "ab"
        0x03, // bad qos byte
    ];
    assert_eq!(Packet::unpack(&data).unwrap_err(), MqttError::Convertion);
}

#[test]
fn test_unpack_reserved_packet_type() {
    let data = vec![0x00, 0x00];
    assert_eq!(Packet::unpack(&data).unwrap_err(), MqttError::Convertion);
}

#[test]
fn test_round_trip_reencodes_identically() {
    // Decoding a packet and re-encoding it reproduces the bytes, for one
    // packet of each kind with a body.
    let samples: Vec<Vec<u8>> = vec![
        vec![
            0x10, 0x1e, 0x00, 0x04, 0x4d, 0x51, 0x54, 0x54, 0x04, 0xc2, 0x00, 0x3c, 0x00, 0x04,
            0x6d, 0x79, 0x50, 0x79, 0x00, 0x06, 0x63, 0x6c, 0x69, 0x65, 0x6e, 0x74, 0x00, 0x04,
            0x70, 0x61, 0x73, 0x73,
        ],
        vec![
            0x33, 0x0E, 0x00, 0x04, 0x69, 0x6e, 0x66, 0x6f, 0x00, 0x02, 0x43, 0x65, 0x64, 0x61,
            0x6c, 0x6f,
        ],
        vec![
            0x82, 0x0C, 0x00, 0x01, 0x00, 0x07, 0x6d, 0x79, 0x74, 0x6f, 0x70, 0x69, 0x63, 0x01,
        ],
        vec![0xA2, 0x08, 0x00, 0x01, 0x00, 0x04, 0x69, 0x6e, 0x66, 0x6f],
        vec![0x40, 0x02, 0x00, 0x07],
        vec![0x50, 0x02, 0x00, 0x07],
        vec![0x62, 0x02, 0x00, 0x07],
        vec![0x70, 0x02, 0x00, 0x07],
        vec![0xb0, 0x02, 0x00, 0x07],
        vec![0x90, 0x03, 0x00, 0x01, 0x01],
        vec![0x20, 0x02, 0x00, 0x00],
        vec![0xc0, 0x00],
        vec![0xd0, 0x00],
        vec![0xe0, 0x00],
    ];
    for bytes in samples {
        let (packet, consumed) = Packet::unpack(&bytes).expect("Failed to decode sample");
        assert_eq!(consumed, bytes.len());
        let again = packet.pack();
        assert_eq!(again, bytes);
    }
}

#[test]
fn test_remaining_length_boundaries() {
    let cases: Vec<(usize, usize)> = vec![
        (0, 1),
        (127, 1),
        (128, 2),
        (16383, 2),
        (16384, 3),
        (2097151, 3),
        (2097152, 4),
        (268435455, 4),
    ];
    for (value, expect_len) in cases {
        let mut bytes: Vec<u8> = Vec::new();
        encode_length(value, &mut bytes);
        assert_eq!(bytes.len(), expect_len, "length of encoding of {}", value);
        let (back, used) = mqtt_broker::packets::utils::decode_length(&bytes, 0)
            .expect("Failed to decode length");
        assert_eq!(back, value);
        assert_eq!(used, expect_len);
    }
}
