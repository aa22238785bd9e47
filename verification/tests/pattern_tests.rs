use mqtt_broker::pattern::Pattern;

#[test]
fn test_single_topic() {
    let topic = "topic/test".to_string();

    let subscribtion = "topic/test".to_string();

    let pattern = Pattern::new(&topic);

    assert!(pattern.matches(&subscribtion))
}

#[test]
fn test_single_level_wild_topic() {
    let topic = "topic/test/test".to_string();

    let subscribtion = "topic/+/test".to_string();

    let pattern = Pattern::new(&topic);

    assert!(pattern.matches(&subscribtion))
}

#[test]
fn test_multi_level_wild_topic() {
    let topic = "topic/test/test".to_string();

    let subscribtion = "topic/#".to_string();

    let pattern = Pattern::new(&topic);

    assert!(pattern.matches(&subscribtion))
}

#[test]
fn test_non_match_topic() {
    let topic = "topic/test/test".to_string();

    let subscribtion = "topic/".to_string();

    let pattern = Pattern::new(&topic);

    assert!(!pattern.matches(&subscribtion))
}

#[test]
fn test_ident_mutli_wild_topic() {
    let topic = "$SYS".to_string();

    let subscribtion = "#".to_string();

    let pattern = Pattern::new(&topic);

    assert!(!pattern.matches(&subscribtion))
}

#[test]
fn test_ident_single_wild_topic() {
    let topic = "$SYS".to_string();

    let subscribtion = "+".to_string();

    let pattern = Pattern::new(&topic);

    assert!(!pattern.matches(&subscribtion))
}

#[test]
fn test_match_doller_not_at_start() {
    let topic = "test/$SYS".to_string();

    let subscribtion = "test/+".to_string();

    let pattern = Pattern::new(&topic);

    assert!(pattern.matches(&subscribtion))
}
