use vstd::prelude::*;

use crate::headers::enums::QosLevel;
use crate::headers::fixed_header::MqttFixedHeader;

verus! {

/// The CONNECT flags byte, held bit by bit.
#[derive(Clone, Copy, Debug, PartialEq, Eq, Structural)]
pub struct Flags {
    pub clean_session: bool,
    pub will: bool,
    pub will_qos: QosLevel,
    pub will_retain: bool,
    pub password: bool,
    pub username: bool,
}

impl Flags {
    pub fn clean_session(&self) -> (r: bool)
        ensures
            r == self.clean_session,
    {
        self.clean_session
    }

    pub fn will_flag(&self) -> (r: bool)
        ensures
            r == self.will,
    {
        self.will
    }

    pub fn will_qos(&self) -> (r: Result<QosLevel, ()>)
        ensures
            r == Ok::<QosLevel, ()>(self.will_qos),
    {
        Ok(self.will_qos)
    }

    pub fn will_retain(&self) -> (r: bool)
        ensures
            r == self.will_retain,
    {
        self.will_retain
    }

    pub fn has_password(&self) -> (r: bool)
        ensures
            r == self.password,
    {
        self.password
    }

    pub fn has_username(&self) -> (r: bool)
        ensures
            r == self.username,
    {
        self.username
    }

    pub fn set_clean_session(&mut self, value: bool)
        ensures
            *final(self) == (Flags { clean_session: value, ..*old(self) }),
    {
        self.clean_session = value;
    }

    pub fn set_will_flag(&mut self, value: bool)
        ensures
            *final(self) == (Flags { will: value, ..*old(self) }),
    {
        self.will = value;
    }

    pub fn set_will_qos(&mut self, value: QosLevel)
        ensures
            *final(self) == (Flags { will_qos: value, ..*old(self) }),
    {
        self.will_qos = value;
    }

    pub fn set_will_retain(&mut self, value: bool)
        ensures
            *final(self) == (Flags { will_retain: value, ..*old(self) }),
    {
        self.will_retain = value;
    }

    pub fn set_has_password(&mut self, value: bool)
        ensures
            *final(self) == (Flags { password: value, ..*old(self) }),
    {
        self.password = value;
    }

    pub fn set_has_username(&mut self, value: bool)
        ensures
            *final(self) == (Flags { username: value, ..*old(self) }),
    {
        self.username = value;
    }
}

/// The CONNECT payload fields, set one by one as they are read.
#[derive(Debug, Default)]
pub struct Payload {
    pub keepalive: u16,
    pub client_id: String,
    pub username: String,
    pub password: String,
    pub will_topic: String,
    pub will_message: String,
}

impl Payload {
    pub fn set_keepalive(&mut self, value: u16)
        ensures
            final(self).keepalive == value,
            final(self).client_id == old(self).client_id,
            final(self).username == old(self).username,
            final(self).password == old(self).password,
            final(self).will_topic == old(self).will_topic,
            final(self).will_message == old(self).will_message,
    {
        self.keepalive = value;
    }

    pub fn set_client_id(&mut self, value: String)
        ensures
            final(self).client_id == value,
            final(self).keepalive == old(self).keepalive,
            final(self).username == old(self).username,
            final(self).password == old(self).password,
            final(self).will_topic == old(self).will_topic,
            final(self).will_message == old(self).will_message,
    {
        self.client_id = value;
    }

    pub fn set_username(&mut self, value: String)
        ensures
            final(self).username == value,
            final(self).keepalive == old(self).keepalive,
            final(self).client_id == old(self).client_id,
            final(self).password == old(self).password,
            final(self).will_topic == old(self).will_topic,
            final(self).will_message == old(self).will_message,
    {
        self.username = value;
    }

    pub fn set_password(&mut self, value: String)
        ensures
            final(self).password == value,
            final(self).keepalive == old(self).keepalive,
            final(self).client_id == old(self).client_id,
            final(self).username == old(self).username,
            final(self).will_topic == old(self).will_topic,
            final(self).will_message == old(self).will_message,
    {
        self.password = value;
    }

    pub fn set_will_topic(&mut self, value: String)
        ensures
            final(self).will_topic == value,
            final(self).keepalive == old(self).keepalive,
            final(self).client_id == old(self).client_id,
            final(self).username == old(self).username,
            final(self).password == old(self).password,
            final(self).will_message == old(self).will_message,
    {
        self.will_topic = value;
    }

    pub fn set_will_message(&mut self, value: String)
        ensures
            final(self).will_message == value,
            final(self).keepalive == old(self).keepalive,
            final(self).client_id == old(self).client_id,
            final(self).username == old(self).username,
            final(self).password == old(self).password,
            final(self).will_topic == old(self).will_topic,
    {
        self.will_message = value;
    }
}

/// A CONNECT packet: its fixed header, flags and payload.
#[derive(Debug)]
pub struct MqttConnect {
    pub mqtt_header: MqttFixedHeader,
    pub flags: Flags,
    pub payload: Payload,
}

} // verus!
