use mqtt_broker::broker::App;
use mqtt_broker::handler::{keepalive_expired, keepalive_window_millis, BrokerOp, Connection};
use mqtt_broker::packets::enums::{QosLevel, SubackReturnCode};
use mqtt_broker::packets::packet::Packet;

fn feed(conn: &mut Connection, bytes: &[u8]) -> mqtt_broker::handler::HandleResult {
    let (packet, consumed) = Packet::unpack(bytes).expect("Failed to decode packet");
    assert_eq!(consumed, bytes.len());
    conn.handle_packet(packet)
}

#[test]
fn test_connect_connack_happy_path() {
    let mut conn = Connection::new();
    let bytes: [u8; 32] = [
        0x10, 0x1e, 0x00, 0x04, 0x4d, 0x51, 0x54, 0x54, 0x04, 0xc2, 0x00, 0x3c, 0x00, 0x04, 0x6d,
        0x79, 0x50, 0x79, 0x00, 0x06, 0x63, 0x6c, 0x69, 0x65, 0x6e, 0x74, 0x00, 0x04, 0x70, 0x61,
        0x73, 0x73,
    ];
    let r = feed(&mut conn, &bytes);
    assert!(!r.close);
    assert_eq!(r.reply.expect("CONNACK expected"), vec![0x20, 0x02, 0x00, 0x00]);
    match r.op.expect("register expected") {
        BrokerOp::Register {
            client_id,
            clean_session,
        } => {
            assert_eq!(client_id, "myPy");
            assert!(clean_session);
        }
        _ => panic!("Expected a register operation"),
    }
}

#[test]
fn test_publish_qos1_round_trip() {
    let mut conn = Connection::new();
    let connect: [u8; 32] = [
        0x10, 0x1e, 0x00, 0x04, 0x4d, 0x51, 0x54, 0x54, 0x04, 0xc2, 0x00, 0x3c, 0x00, 0x04, 0x6d,
        0x79, 0x50, 0x79, 0x00, 0x06, 0x63, 0x6c, 0x69, 0x65, 0x6e, 0x74, 0x00, 0x04, 0x70, 0x61,
        0x73, 0x73,
    ];
    feed(&mut conn, &connect);
    let publish: [u8; 16] = [
        0x33, 0x0e, 0x00, 0x04, 0x69, 0x6e, 0x66, 0x6f, 0x00, 0x02, 0x43, 0x65, 0x64, 0x61, 0x6c,
        0x6f,
    ];
    let r = feed(&mut conn, &publish);
    assert!(!r.close);
    assert_eq!(r.reply.expect("PUBACK expected"), vec![0x40, 0x02, 0x00, 0x02]);
    match r.op.expect("publish expected") {
        BrokerOp::Publish { topic, payload, qos } => {
            assert_eq!(topic, "info");
            assert_eq!(payload, b"Cedalo".to_vec());
            assert_eq!(qos, QosLevel::AtLeast);
        }
        _ => panic!("Expected a publish operation"),
    }
}

#[test]
fn test_subscribe_and_deliver() {
    let mut app = App::new();
    app.connect("A".to_string(), true);
    app.connect("B".to_string(), true);

    let codes = app
        .subscribe(
            &"A".to_string(),
            vec![("a/+/c".to_string(), QosLevel::AtLeast)],
        )
        .expect("subscribe failed");
    assert_eq!(codes, vec![SubackReturnCode::SuccessQosOne]);

    let recipients = app.publish("a/b/c".to_string(), QosLevel::AtLeast);
    assert_eq!(recipients.len(), 1);
    assert_eq!(recipients[0].0, "A");
    assert_eq!(recipients[0].1, QosLevel::AtLeast);

    // The delivery is the PUBLISH packet the subscriber's writer sends.
    let delivery = Packet::make_publish(
        false,
        recipients[0].1,
        false,
        "a/b/c".to_string(),
        None,
        b"hi".to_vec(),
    );
    assert_eq!(delivery[0], 0x32);
    assert_eq!(&delivery[4..9], b"a/b/c");
}

#[test]
fn test_hash_wildcard_dollar_exclusion() {
    let mut app = App::new();
    app.connect("A".to_string(), true);
    let codes = app
        .subscribe(&"A".to_string(), vec![("#".to_string(), QosLevel::AtMost)])
        .expect("subscribe failed");
    assert_eq!(codes, vec![SubackReturnCode::SuccessQosZero]);

    let recipients = app.publish(
        "$SYS/broker/clients/connected".to_string(),
        QosLevel::AtMost,
    );
    assert_eq!(recipients.len(), 0);
}

#[test]
fn test_takeover() {
    let mut app = App::new();
    let first = app.connect("X".to_string(), false);
    assert!(!first);
    let second = app.connect("X".to_string(), false);
    // The second CONNECT displaced the first session, so its writer is told
    // to disconnect before the new session serves the id.
    assert!(second);
    assert_eq!(app.sessions.len(), 1);
    assert_eq!(app.sessions[0].0, "X");
}

#[test]
fn test_keepalive_timeout() {
    let mut conn = Connection::new();
    let connect_keepalive_2s: [u8; 16] = [
        0x10, 0x0e, 0x00, 0x04, 0x4d, 0x51, 0x54, 0x54, 0x04, 0x02, 0x00, 0x02, 0x00, 0x02, 0x68,
        0x69,
    ];
    let r = feed(&mut conn, &connect_keepalive_2s);
    assert!(!r.close);
    assert!(r.reset_keepalive);
    assert_eq!(conn.keepalive, 2);

    // The broker closes an idle connection after 1.5 times the keepalive.
    let window = keepalive_window_millis(conn.keepalive);
    assert_eq!(window, Some(3000));
    let now: u64 = 100_000;
    let deadline = Some(now + window.unwrap());
    assert!(!keepalive_expired(deadline, now + 2999));
    assert!(!keepalive_expired(deadline, now + 3000));
    assert!(keepalive_expired(deadline, now + 3001));
    // A zero keepalive disables the timer.
    assert_eq!(keepalive_window_millis(0), None);
    assert!(!keepalive_expired(None, u64::MAX));
}

#[test]
fn test_second_connect_is_a_violation() {
    let mut conn = Connection::new();
    let connect: [u8; 16] = [
        0x10, 0x0e, 0x00, 0x04, 0x4d, 0x51, 0x54, 0x54, 0x04, 0x02, 0x00, 0x02, 0x00, 0x02, 0x68,
        0x69,
    ];
    feed(&mut conn, &connect);
    let r = feed(&mut conn, &connect);
    assert!(r.close);
    assert_eq!(r.reply.expect("CONNACK expected"), vec![0x20, 0x02, 0x00, 0x01]);
}

#[test]
fn test_pingreq_gets_pingresp() {
    let mut conn = Connection::new();
    let connect: [u8; 16] = [
        0x10, 0x0e, 0x00, 0x04, 0x4d, 0x51, 0x54, 0x54, 0x04, 0x02, 0x00, 0x02, 0x00, 0x02, 0x68,
        0x69,
    ];
    feed(&mut conn, &connect);
    let r = feed(&mut conn, &[0xc0, 0x00]);
    assert!(!r.close);
    assert!(r.reset_keepalive);
    assert_eq!(r.reply.expect("PINGRESP expected"), vec![0xd0, 0x00]);
}

#[test]
fn test_packet_before_connect_closes() {
    let mut conn = Connection::new();
    let r = feed(&mut conn, &[0xc0, 0x00]);
    assert!(r.close);
    assert!(r.reply.is_none());
    assert!(r.op.is_none());
}

#[test]
fn test_pubrec_pubrel_pubcomp_flow() {
    let mut conn = Connection::new();
    let connect: [u8; 16] = [
        0x10, 0x0e, 0x00, 0x04, 0x4d, 0x51, 0x54, 0x54, 0x04, 0x02, 0x00, 0x02, 0x00, 0x02, 0x68,
        0x69,
    ];
    feed(&mut conn, &connect);
    let r = feed(&mut conn, &[0x50, 0x02, 0x00, 0x09]);
    assert_eq!(r.reply.expect("PUBREL expected"), vec![0x62, 0x02, 0x00, 0x09]);
    let r = feed(&mut conn, &[0x62, 0x02, 0x00, 0x09]);
    assert_eq!(r.reply.expect("PUBCOMP expected"), vec![0x70, 0x02, 0x00, 0x09]);
}

#[test]
fn test_subscribe_rejects_dollar_filters() {
    let mut app = App::new();
    app.connect("A".to_string(), true);
    let codes = app
        .subscribe(
            &"A".to_string(),
            vec![
                ("$internal/x".to_string(), QosLevel::AtMost),
                ("$SYS/broker/uptime".to_string(), QosLevel::AtLeast),
                ("plain/topic".to_string(), QosLevel::Exactly),
            ],
        )
        .expect("subscribe failed");
    assert_eq!(
        codes,
        vec![
            SubackReturnCode::Failure,
            SubackReturnCode::SuccessQosOne,
            SubackReturnCode::SuccessQosTwo,
        ]
    );
}

#[test]
fn test_subscribe_without_session_fails() {
    let mut app = App::new();
    let r = app.subscribe(&"ghost".to_string(), vec![("a".to_string(), QosLevel::AtMost)]);
    assert_eq!(r.unwrap_err(), mqtt_broker::error::MqttError::Unknown);
}

#[test]
fn test_unsubscribe_removes_filter() {
    let mut app = App::new();
    app.connect("A".to_string(), true);
    app.subscribe(&"A".to_string(), vec![("a/b".to_string(), QosLevel::AtMost)])
        .expect("subscribe failed");
    assert_eq!(app.publish("a/b".to_string(), QosLevel::AtMost).len(), 1);
    app.unsubscribe(&"A".to_string(), vec!["a/b".to_string()])
        .expect("unsubscribe failed");
    assert_eq!(app.publish("a/b".to_string(), QosLevel::AtMost).len(), 0);
}

#[test]
fn test_disconnect_drops_session_and_subscriptions() {
    let mut app = App::new();
    app.connect("A".to_string(), false);
    app.subscribe(&"A".to_string(), vec![("a/b".to_string(), QosLevel::AtMost)])
        .expect("subscribe failed");
    app.disconnect("A".to_string());
    assert_eq!(app.sessions.len(), 0);
    assert_eq!(app.publish("a/b".to_string(), QosLevel::AtMost).len(), 0);
}

#[test]
fn test_publish_delivers_at_min_qos() {
    let mut app = App::new();
    app.connect("A".to_string(), true);
    app.subscribe(&"A".to_string(), vec![("t".to_string(), QosLevel::Exactly)])
        .expect("subscribe failed");
    let r = app.publish("t".to_string(), QosLevel::AtLeast);
    assert_eq!(r[0].1, QosLevel::AtLeast);
    let r = app.publish("t".to_string(), QosLevel::AtMost);
    assert_eq!(r[0].1, QosLevel::AtMost);
}

#[test]
fn test_generated_client_id_for_empty_connect() {
    let mut conn = Connection::new();
    // CONNECT with clean session and a zero-length client identifier.
    let connect: [u8; 14] = [
        0x10, 0x0c, 0x00, 0x04, 0x4d, 0x51, 0x54, 0x54, 0x04, 0x02, 0x00, 0x3c, 0x00, 0x00,
    ];
    let r = feed(&mut conn, &connect);
    assert!(!r.close);
    match r.op.expect("register expected") {
        BrokerOp::Register { client_id, .. } => {
            assert_eq!(client_id.len(), 36);
        }
        _ => panic!("Expected a register operation"),
    }
}

#[test]
fn test_shared_subscription_through_broker() {
    // Two clients join one share group; sequential publishes alternate
    // between them, and each gets at least half of four deliveries.
    let mut app = App::new();
    app.connect("alpha".to_string(), true);
    app.connect("beta".to_string(), true);
    let codes = app
        .subscribe(
            &"alpha".to_string(),
            vec![("$share/g/jobs".to_string(), QosLevel::AtMost)],
        )
        .expect("subscribe failed");
    assert_eq!(codes, vec![SubackReturnCode::SuccessQosZero]);
    app.subscribe(
        &"beta".to_string(),
        vec![("$share/g/jobs".to_string(), QosLevel::AtMost)],
    )
    .expect("subscribe failed");

    let mut alpha = 0;
    let mut beta = 0;
    for _ in 0..4 {
        let recipients = app.publish("jobs".to_string(), QosLevel::AtMost);
        assert_eq!(recipients.len(), 1);
        if recipients[0].0 == "alpha" {
            alpha += 1;
        } else if recipients[0].0 == "beta" {
            beta += 1;
        }
    }
    assert_eq!(alpha, 2);
    assert_eq!(beta, 2);
}

#[test]
fn test_clean_session_clears_subscriptions() {
    let mut app = App::new();
    app.connect("A".to_string(), false);
    app.subscribe(&"A".to_string(), vec![("a/b".to_string(), QosLevel::AtMost)])
        .expect("subscribe failed");
    assert_eq!(app.publish("a/b".to_string(), QosLevel::AtMost).len(), 1);
    // Reconnecting with clean session discards the prior subscriptions.
    let took_over = app.connect("A".to_string(), true);
    assert!(took_over);
    assert_eq!(app.publish("a/b".to_string(), QosLevel::AtMost).len(), 0);
}
