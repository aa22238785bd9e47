use mqtt_broker::broker_info::{
    client_dec, client_inc, get_stats, received_data, received_published, sent_data,
    sent_published, BrokerInfo,
};
use mqtt_broker::config::ConfigBuilder;
use mqtt_broker::packets::enums::QosLevel;
use mqtt_broker::topics::Topics;
use mqtt_broker::queue::FifoQueue;

#[test]
fn test_broker_info_counters() {
    let mut info = BrokerInfo::new();
    client_inc(&mut info);
    client_inc(&mut info);
    client_dec(&mut info);
    received_data(&mut info, 100);
    sent_data(&mut info, 40);
    received_published(&mut info);
    sent_published(&mut info);
    sent_published(&mut info);
    let (
        bytes_received,
        bytes_sent,
        clients_connected,
        messages_received,
        messages_sent,
        publish_received,
        publish_sent,
    ) = get_stats(&info);
    assert_eq!(bytes_received, 100);
    assert_eq!(bytes_sent, 40);
    assert_eq!(clients_connected, 1);
    assert_eq!(messages_received, 1);
    assert_eq!(messages_sent, 1);
    assert_eq!(publish_received, 1);
    assert_eq!(publish_sent, 2);
}

#[test]
fn test_broker_info_counter_wraps() {
    let mut info = BrokerInfo::new();
    info.bytes_received = usize::MAX;
    received_data(&mut info, 1);
    assert_eq!(info.bytes_received, 0);
    assert_eq!(info.messages_received, 1);
}

#[test]
fn test_config_builder() {
    let config = ConfigBuilder::new().set_port(1883).set_sys_interval(0);
    assert_eq!(config.port, 1883);
    assert_eq!(config.sys_interval, 0);
    assert_eq!(config.address, "0.0.0.0");
    assert!(config.allow_anonymous);
    assert!(config.username.is_none());
    assert!(config.password.is_none());
}

#[test]
fn test_queue_fifo_order() {
    let mut queue: FifoQueue<i32> = FifoQueue::new();
    queue.push(1).unwrap();
    queue.push(2).unwrap();
    queue.push(3).unwrap();
    assert_eq!(queue.len().unwrap(), 3);
    assert!(!queue.is_empty().unwrap());
    assert_eq!(queue.pop().unwrap(), Some(1));
    assert_eq!(queue.pop().unwrap(), Some(2));
    assert_eq!(queue.pop().unwrap(), Some(3));
    assert_eq!(queue.pop().unwrap(), None);
    assert!(queue.is_empty().unwrap());
}

#[test]
fn test_topics_flat_matching() {
    let mut topics = Topics::new();
    topics
        .subscribe("a/+/c".to_string(), QosLevel::AtLeast, &"A".to_string())
        .unwrap();
    topics
        .subscribe("a/b/c".to_string(), QosLevel::AtMost, &"B".to_string())
        .unwrap();
    topics
        .subscribe("x/y".to_string(), QosLevel::AtMost, &"C".to_string())
        .unwrap();

    let matches = topics.get_matches(&"a/b/c".to_string());
    assert_eq!(
        matches,
        vec![
            ("A".to_string(), QosLevel::AtLeast),
            ("B".to_string(), QosLevel::AtMost)
        ]
    );

    // Re-subscribing replaces the granted QoS.
    topics
        .subscribe("a/b/c".to_string(), QosLevel::Exactly, &"B".to_string())
        .unwrap();
    let matches = topics.get_matches(&"a/b/c".to_string());
    assert!(matches.contains(&("B".to_string(), QosLevel::Exactly)));

    topics.unsubscribe(&"A".to_string(), &"a/+/c".to_string());
    let matches = topics.get_matches(&"a/b/c".to_string());
    assert_eq!(matches, vec![("B".to_string(), QosLevel::Exactly)]);
}
