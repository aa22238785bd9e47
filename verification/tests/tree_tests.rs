use mqtt_broker::packets::enums::QosLevel;
use mqtt_broker::topic_heir::{SubscriptionLeaf, SubscriptionTree};

#[test]
fn test_insert() {
    let mut tree = SubscriptionTree::new();

    tree.insert(
        "$share/GroupA/hello/test".to_string(),
        SubscriptionLeaf::new(QosLevel::AtMost, "7".to_string(), false, false),
    )
    .expect("Failed to insert");

    println!("{:#?}", tree);
}

#[test]
fn test_insert_replace() {
    let mut tree = SubscriptionTree::new();
    tree.insert(
        "$share/GroupA/hello/test".to_string(),
        SubscriptionLeaf::new(QosLevel::AtMost, "7".to_string(), false, false),
    )
    .expect("Failed to insert");
    tree.insert(
        "$share/GroupA/hello/test".to_string(),
        SubscriptionLeaf::new(QosLevel::Exactly, "7".to_string(), false, false),
    )
    .expect("Failed to insert");

    println!("{:#?}", tree);
    // Re-subscribing replaced the member rather than adding one; the new
    // QoS superseded the old.
    assert_eq!(tree.groups.len(), 1);
    assert_eq!(tree.groups[0].members.len(), 1);
    assert_eq!(tree.groups[0].members[0].qos, QosLevel::Exactly);
}

#[test]
fn test_delete() {
    let mut tree = SubscriptionTree::new();
    tree.insert(
        "/hello/test".to_string(),
        SubscriptionLeaf::new(QosLevel::AtMost, "7".to_string(), false, false),
    )
    .expect("Failed to insert");

    tree.delete("/hello/test".to_string(), &"7".to_string())
        .expect("Failed to delete");

    println!("{:#?}", tree);
    assert_eq!(tree.regs.len(), 0);
}

#[test]
fn test_get() {
    let mut tree = SubscriptionTree::new();
    tree.insert(
        "/hello/test".to_string(),
        SubscriptionLeaf::new(QosLevel::AtMost, "7".to_string(), false, false),
    )
    .expect("Failed to insert");
    tree.insert(
        "/hello/test".to_string(),
        SubscriptionLeaf::new(QosLevel::AtMost, "34".to_string(), false, false),
    )
    .expect("Failed to insert");
    tree.insert(
        "$share/GroupA/hello/test".to_string(),
        SubscriptionLeaf::new(QosLevel::AtMost, "34".to_string(), false, false),
    )
    .expect("Failed to insert");

    let subscribers = tree.get("/hello/test".to_string()).expect("Failed to get");

    println!("{:#?}", subscribers);
    println!("{:#?}", tree);
    assert_eq!(subscribers.len(), 2);

    let subscribers = tree
        .get("$share/GroupA/hello/test".to_string())
        .expect("Failed to get");
    println!("{:#?}", subscribers)
}

#[test]
fn test_get_single_wild() {
    let mut tree = SubscriptionTree::new();
    tree.insert(
        "/+/test".to_string(),
        SubscriptionLeaf::new(QosLevel::AtMost, "7".to_string(), false, false),
    )
    .expect("Failed to insert");

    let subscribers = tree
        .get("/hello/test".to_string())
        .expect("Failed to get subscribers");

    println!("{:#?}", subscribers);
    assert_eq!(subscribers.len(), 1);
    assert_eq!(subscribers[0].0, "7");
}

#[test]
fn test_get_mutli_wild() {
    let mut tree = SubscriptionTree::new();
    tree.insert(
        "#".to_string(),
        SubscriptionLeaf::new(QosLevel::AtMost, "7".to_string(), false, false),
    )
    .expect("Failed to insert");

    let subscribers = tree
        .get("/hello/test".to_string())
        .expect("Failed to get subscribers");

    println!("{:#?}", subscribers);
    assert_eq!(subscribers.len(), 1);
}

#[test]
fn test_get_dedups_by_client() {
    // One client on two filters that both match receives one delivery.
    let mut tree = SubscriptionTree::new();
    tree.insert(
        "a/+/c".to_string(),
        SubscriptionLeaf::new(QosLevel::AtLeast, "dup".to_string(), false, false),
    )
    .expect("Failed to insert");
    tree.insert(
        "a/#".to_string(),
        SubscriptionLeaf::new(QosLevel::AtMost, "dup".to_string(), false, false),
    )
    .expect("Failed to insert");

    let subscribers = tree.get("a/b/c".to_string()).expect("Failed to get");
    assert_eq!(subscribers.len(), 1);
    assert_eq!(subscribers[0].0, "dup");
}

#[test]
fn test_shared_group_round_robin() {
    // Four publishes to a group of two reach each member twice.
    let mut tree = SubscriptionTree::new();
    tree.insert(
        "$share/g/jobs".to_string(),
        SubscriptionLeaf::new(QosLevel::AtMost, "alpha".to_string(), false, false),
    )
    .expect("Failed to insert");
    tree.insert(
        "$share/g/jobs".to_string(),
        SubscriptionLeaf::new(QosLevel::AtMost, "beta".to_string(), false, false),
    )
    .expect("Failed to insert");

    let mut alpha = 0;
    let mut beta = 0;
    for _ in 0..4 {
        let subscribers = tree.get("jobs".to_string()).expect("Failed to get");
        assert_eq!(subscribers.len(), 1);
        if subscribers[0].0 == "alpha" {
            alpha += 1;
        } else if subscribers[0].0 == "beta" {
            beta += 1;
        }
    }
    assert_eq!(alpha, 2);
    assert_eq!(beta, 2);
}

#[test]
fn test_wildcard_does_not_match_dollar_topic() {
    let mut tree = SubscriptionTree::new();
    tree.insert(
        "#".to_string(),
        SubscriptionLeaf::new(QosLevel::AtMost, "7".to_string(), false, false),
    )
    .expect("Failed to insert");

    let subscribers = tree
        .get("$SYS/broker/clients/connected".to_string())
        .expect("Failed to get subscribers");
    assert_eq!(subscribers.len(), 0);
}

#[test]
fn test_remove_client_clears_subscriptions() {
    let mut tree = SubscriptionTree::new();
    tree.insert(
        "a/b".to_string(),
        SubscriptionLeaf::new(QosLevel::AtMost, "x".to_string(), false, false),
    )
    .expect("Failed to insert");
    tree.insert(
        "a/b".to_string(),
        SubscriptionLeaf::new(QosLevel::AtMost, "y".to_string(), false, false),
    )
    .expect("Failed to insert");
    tree.remove_client(&"x".to_string());

    let subscribers = tree.get("a/b".to_string()).expect("Failed to get");
    assert_eq!(subscribers.len(), 1);
    assert_eq!(subscribers[0].0, "y");
}

#[test]
fn test_insert_share_without_group_fails() {
    let mut tree = SubscriptionTree::new();
    let r = tree.insert(
        "$share".to_string(),
        SubscriptionLeaf::new(QosLevel::AtMost, "7".to_string(), false, false),
    );
    assert_eq!(r, Err(1));
}
