use mqtt_broker::packets::connect::Flags;
use mqtt_broker::packets::enums::QosLevel;

#[test]
fn test_connect_header_flags_parse() {
    // clean session yes
    // will no
    // qos 0
    // retain no
    // password yes
    // username yes
    let flags = Flags::from_byte(0xc2);

    assert!(flags.clean_session());
    assert!(flags.has_password());
    assert!(flags.has_username());
    assert!(!flags.will());
    assert_eq!(flags.will_qos().expect("QOS"), QosLevel::AtMost);
    assert!(!flags.will_retain());
}
