use mqtt_broker::utils::tokenise_topic;

#[test]
fn test_tokenize_topic() {
    if let Ok((topic, share)) = tokenise_topic("topic/Hello".to_string()) {
        assert!(share.is_none());
        assert_eq!(topic, vec!["topic".to_string(), "Hello".to_string()]);
    } else {
        panic!("Failed to parse topic")
    }
}

#[test]
fn test_tokenize_topic_with_leading_slash() {
    if let Ok((topic, share)) = tokenise_topic("/topic/Hello".to_string()) {
        assert!(share.is_none());
        assert_eq!(
            topic,
            vec!["".to_string(), "topic".to_string(), "Hello".to_string()]
        );
    } else {
        panic!("Failed to parse topic")
    }
}

#[test]
fn test_tokenize_topic_with_share() {
    if let Ok((topic, share)) = tokenise_topic("$share/GroupA/topic/Hello".to_string()) {
        println!("{:#?} {:#?}", topic, share);
        assert!(share.is_some_and(|x| x == *"GroupA"), "Share is not GroupA");

        assert_eq!(
            topic,
            vec!["".to_string(), "topic".to_string(), "Hello".to_string()]
        );
    } else {
        panic!("Failed to parse topic")
    }
}
