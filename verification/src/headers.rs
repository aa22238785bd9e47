pub mod enums;
pub mod fixed_header;
pub mod mqtt_ack;
pub mod mqtt_connack;
pub mod mqtt_connect;
pub mod mqtt_publish;
pub mod mqtt_sub;
pub mod mqtt_suback;
