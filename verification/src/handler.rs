use vstd::prelude::*;

use crate::error::MqttError;
use crate::packets::enums::{ConnectReturnCode, ProtocalVersion, QosLevel};
use crate::packets::packet::{Packet, VariableHeader, VariableHeaderV};
use crate::packets::utils::enc_u16;

verus! {

/// Relies on uuid::Uuid::new_v4 and its hyphenated display form: a fresh
/// random identifier rendered as 36 characters. Nothing relates two calls.
#[verifier::external_body]
fn fresh_client_id() -> (r: String)
    ensures
        r@.len() == 36,
{
    uuid::Uuid::new_v4().to_string()
}

/// Where a connection stands in its life: before CONNECT, serving packets,
/// or shut down.
#[derive(Clone, Copy, Debug, PartialEq, Eq, Structural)]
pub enum ConnState {
    AwaitingConnect,
    Connected,
    Closed,
}

/// What a handled packet asks of the broker.
#[derive(Debug)]
pub enum BrokerOp {
    Register { client_id: String, clean_session: bool },
    Subscribe { client_id: String, packet_id: u16, topics: Vec<(String, QosLevel)> },
    Unsubscribe { client_id: String, packet_id: u16, topics: Vec<String> },
    Publish { topic: String, payload: Vec<u8>, qos: QosLevel },
    Disconnect { client_id: String },
}

/// What the connection does with one inbound packet: an immediate reply to
/// write, an operation to hand the broker, whether to close, and whether the
/// keepalive deadline restarts.
#[derive(Debug)]
pub struct HandleResult {
    pub reply: Option<Vec<u8>>,
    pub op: Option<BrokerOp>,
    pub close: bool,
    pub reset_keepalive: bool,
}

/// The per-connection protocol state machine, fed one decoded packet at a
/// time.
#[derive(Debug)]
pub struct Connection {
    pub state: ConnState,
    pub client_id: Option<String>,
    pub keepalive: u16,
    pub protocol: ProtocalVersion,
}

/// The number of milliseconds of silence after which an idle connection is
/// closed: one and a half times the keepalive interval, or none when the
/// client disabled keepalive with zero.
pub open spec fn spec_keepalive_window(keepalive: u16) -> Option<u64> {
    if keepalive == 0 {
        None
    } else {
        Some((keepalive * 1500) as u64)
    }
}

/// The keepalive window in milliseconds for a keepalive given in seconds.
pub fn keepalive_window_millis(keepalive: u16) -> (r: Option<u64>)
    ensures
        r == spec_keepalive_window(keepalive),
{
    if keepalive == 0 {
        None
    } else {
        Some(keepalive as u64 * 1500)
    }
}

/// Whether a deadline has passed; a connection without one never expires.
pub fn keepalive_expired(deadline: Option<u64>, now_ms: u64) -> (r: bool)
    ensures
        r == (deadline matches Some(d) && now_ms > d),
{
    match deadline {
        Some(d) => now_ms > d,
        None => false,
    }
}

impl Connection {
    /// A fresh connection that has not yet seen its CONNECT.
    pub fn new() -> (r: Self)
        ensures
            r.state == ConnState::AwaitingConnect,
            r.client_id is None,
            r.keepalive == 0,
    {
        Connection {
            state: ConnState::AwaitingConnect,
            client_id: None,
            keepalive: 0,
            protocol: ProtocalVersion::Unknown,
        }
    }

    /// Feed one decoded packet through the state machine. Before CONNECT
    /// only a CONNECT is served; one CONNECT after another is a protocol
    /// violation answered with CONNACK `unacceptable protocol` and a close;
    /// in the connected state each packet earns the reply, broker operation
    /// and keepalive reset that MQTT 3.1.1 prescribes.
    pub fn handle_packet(&mut self, packet: Packet) -> (r: HandleResult)
        ensures
            handle_post(*old(self), *final(self), packet@, r),
    {
        match self.state {
            ConnState::AwaitingConnect => {
                match packet.variable {
                    VariableHeader::Connect {
                        flags,
                        keepalive,
                        client_id,
                        protocol_version,
                        ..
                    } => {
                        let cid: String = if client_id.as_str().unicode_len() == 0 {
                            fresh_client_id()
                        } else {
                            client_id
                        };
                        let cid2 = cid.clone();
                        self.state = ConnState::Connected;
                        self.keepalive = keepalive;
                        self.protocol = protocol_version;
                        self.client_id = Some(cid);
                        HandleResult {
                            reply: Some(Packet::make_connack(ConnectReturnCode::Accepted, false)),
                            op: Some(
                                BrokerOp::Register {
                                    client_id: cid2,
                                    clean_session: flags.clean_session(),
                                },
                            ),
                            close: false,
                            reset_keepalive: true,
                        }
                    },
                    _ => {
                        self.state = ConnState::Closed;
                        HandleResult { reply: None, op: None, close: true, reset_keepalive: false }
                    },
                }
            },
            ConnState::Connected => {
                match packet.variable {
                    VariableHeader::Connect { .. } => {
                        self.state = ConnState::Closed;
                        HandleResult {
                            reply: Some(
                                Packet::make_connack(
                                    ConnectReturnCode::V4UnacceptableProtocal,
                                    false,
                                ),
                            ),
                            op: None,
                            close: true,
                            reset_keepalive: false,
                        }
                    },
                    VariableHeader::Publish { topic, packet_id, payload } => {
                        match packet.fixed.get_qos() {
                            Ok(QosLevel::AtMost) => HandleResult {
                                reply: None,
                                op: Some(
                                    BrokerOp::Publish { topic, payload, qos: QosLevel::AtMost },
                                ),
                                close: false,
                                reset_keepalive: true,
                            },
                            Ok(QosLevel::AtLeast) => match packet_id {
                                Some(id) => HandleResult {
                                    reply: Some(Packet::make_puback(id)),
                                    op: Some(
                                        BrokerOp::Publish {
                                            topic,
                                            payload,
                                            qos: QosLevel::AtLeast,
                                        },
                                    ),
                                    close: false,
                                    reset_keepalive: true,
                                },
                                None => {
                                    self.state = ConnState::Closed;
                                    HandleResult {
                                        reply: None,
                                        op: None,
                                        close: true,
                                        reset_keepalive: false,
                                    }
                                },
                            },
                            Ok(QosLevel::Exactly) => match packet_id {
                                Some(id) => HandleResult {
                                    reply: Some(Packet::make_pubrec(id)),
                                    op: Some(
                                        BrokerOp::Publish {
                                            topic,
                                            payload,
                                            qos: QosLevel::Exactly,
                                        },
                                    ),
                                    close: false,
                                    reset_keepalive: true,
                                },
                                None => {
                                    self.state = ConnState::Closed;
                                    HandleResult {
                                        reply: None,
                                        op: None,
                                        close: true,
                                        reset_keepalive: false,
                                    }
                                },
                            },
                            Err(_) => {
                                self.state = ConnState::Closed;
                                HandleResult {
                                    reply: None,
                                    op: None,
                                    close: true,
                                    reset_keepalive: false,
                                }
                            },
                        }
                    },
                    VariableHeader::PubRec { packet_id } => HandleResult {
                        reply: Some(Packet::make_pubrel(packet_id)),
                        op: None,
                        close: false,
                        reset_keepalive: true,
                    },
                    VariableHeader::PubRel { packet_id } => HandleResult {
                        reply: Some(Packet::make_pubcomp(packet_id)),
                        op: None,
                        close: false,
                        reset_keepalive: true,
                    },
                    VariableHeader::PubAck { .. } => HandleResult {
                        reply: None,
                        op: None,
                        close: false,
                        reset_keepalive: true,
                    },
                    VariableHeader::PubComp { .. } => HandleResult {
                        reply: None,
                        op: None,
                        close: false,
                        reset_keepalive: true,
                    },
                    VariableHeader::Subscribe { packet_id, tuples } => {
                        match &self.client_id {
                            Some(cid) => HandleResult {
                                reply: None,
                                op: Some(
                                    BrokerOp::Subscribe {
                                        client_id: cid.clone(),
                                        packet_id,
                                        topics: tuples,
                                    },
                                ),
                                close: false,
                                reset_keepalive: true,
                            },
                            None => {
                                self.state = ConnState::Closed;
                                HandleResult {
                                    reply: None,
                                    op: None,
                                    close: true,
                                    reset_keepalive: false,
                                }
                            },
                        }
                    },
                    VariableHeader::Unsubscribe { packet_id, tuples } => {
                        match &self.client_id {
                            Some(cid) => HandleResult {
                                reply: None,
                                op: Some(
                                    BrokerOp::Unsubscribe {
                                        client_id: cid.clone(),
                                        packet_id,
                                        topics: tuples,
                                    },
                                ),
                                close: false,
                                reset_keepalive: true,
                            },
                            None => {
                                self.state = ConnState::Closed;
                                HandleResult {
                                    reply: None,
                                    op: None,
                                    close: true,
                                    reset_keepalive: false,
                                }
                            },
                        }
                    },
                    VariableHeader::PingReq => HandleResult {
                        reply: Some(Packet::make_ping_resp()),
                        op: None,
                        close: false,
                        reset_keepalive: true,
                    },
                    VariableHeader::Disconnect => {
                        self.state = ConnState::Closed;
                        match &self.client_id {
                            Some(cid) => HandleResult {
                                reply: None,
                                op: Some(BrokerOp::Disconnect { client_id: cid.clone() }),
                                close: true,
                                reset_keepalive: false,
                            },
                            None => HandleResult {
                                reply: None,
                                op: None,
                                close: true,
                                reset_keepalive: false,
                            },
                        }
                    },
                    _ => {
                        self.state = ConnState::Closed;
                        HandleResult { reply: None, op: None, close: true, reset_keepalive: false }
                    },
                }
            },
            ConnState::Closed => {
                HandleResult { reply: None, op: None, close: true, reset_keepalive: false }
            },
        }
    }

    /// The reply a decode error earns before the connection closes: CONNACK
    /// `unacceptable protocol` for a bad protocol name or level, CONNACK
    /// `identifier rejected` for an empty client identifier without clean
    /// session, nothing for the rest.
    pub fn handle_decode_error(&mut self, e: MqttError) -> (r: HandleResult)
        ensures
            final(self).state == ConnState::Closed,
            final(self).client_id == old(self).client_id,
            final(self).keepalive == old(self).keepalive,
            r.close == true,
            r.op is None,
            r.reset_keepalive == false,
            (e == MqttError::UnknownProtocol || e == MqttError::UnacceptableProtocolLevel) ==> (
            r.reply matches Some(b) && b@ == seq![0x20u8, 0x02u8, 0x00u8, 0x01u8]),
            e == MqttError::ClientIdentifierRejected ==> (r.reply matches Some(b) && b@ == seq![
                0x20u8,
                0x02u8,
                0x00u8,
                0x02u8,
            ]),
            !(e == MqttError::UnknownProtocol || e == MqttError::UnacceptableProtocolLevel || e
                == MqttError::ClientIdentifierRejected) ==> (r.reply is None),
    {
        self.state = ConnState::Closed;
        match e {
            MqttError::UnknownProtocol | MqttError::UnacceptableProtocolLevel => HandleResult {
                reply: Some(
                    Packet::make_connack(ConnectReturnCode::V4UnacceptableProtocal, false),
                ),
                op: None,
                close: true,
                reset_keepalive: false,
            },
            MqttError::ClientIdentifierRejected => HandleResult {
                reply: Some(Packet::make_connack(ConnectReturnCode::V4IdentifierRejected, false)),
                op: None,
                close: true,
                reset_keepalive: false,
            },
            _ => HandleResult { reply: None, op: None, close: true, reset_keepalive: false },
        }
    }
}

/// What handling one packet does, as a relation between the connection
/// before and after, the packet, and the result.
pub open spec fn handle_post(
    pre: Connection,
    post: Connection,
    p: crate::packets::packet::PacketV,
    r: HandleResult,
) -> bool {
    let v = p.variable;
    match pre.state {
        ConnState::AwaitingConnect => match v {
            VariableHeaderV::Connect { flags, keepalive, client_id, protocol_version, .. } => {
                &&& post.state == ConnState::Connected
                &&& post.keepalive == keepalive
                &&& post.protocol == protocol_version
                &&& r.close == false
                &&& r.reset_keepalive == true
                &&& r.reply matches Some(b) && b@ == seq![0x20u8, 0x02u8, 0x00u8, 0x00u8]
                &&& r.op matches Some(op) && (op matches BrokerOp::Register {
                    client_id: rc,
                    clean_session: cs,
                } && cs == flags.spec_clean_session() && (if client_id.len() > 0 {
                    rc@ == client_id
                } else {
                    rc@.len() == 36
                }) && (post.client_id matches Some(x) && x@ == rc@))
            },
            _ => closed_silently(post, r),
        },
        ConnState::Connected => match v {
            VariableHeaderV::Connect { .. } => {
                &&& post.state == ConnState::Closed
                &&& r.close == true
                &&& r.op is None
                &&& r.reply matches Some(b) && b@ == seq![0x20u8, 0x02u8, 0x00u8, 0x01u8]
            },
            VariableHeaderV::Publish { topic, packet_id, payload } => {
                if p.fixed.qos == 0 {
                    &&& post == pre
                    &&& r.close == false
                    &&& r.reset_keepalive == true
                    &&& r.reply is None
                    &&& r.op matches Some(op) && (op matches BrokerOp::Publish {
                        topic: t,
                        payload: pl,
                        qos: q,
                    } && t@ == topic && pl@ == payload && q.spec_u8() == p.fixed.qos)
                } else if p.fixed.qos <= 2 && packet_id is Some {
                    &&& post == pre
                    &&& r.close == false
                    &&& r.reset_keepalive == true
                    &&& r.op matches Some(op) && (op matches BrokerOp::Publish {
                        topic: t,
                        payload: pl,
                        qos: q,
                    } && t@ == topic && pl@ == payload && q.spec_u8() == p.fixed.qos)
                    &&& r.reply matches Some(b) && b@ == seq![
                        (if p.fixed.qos == 2 {
                            0x50u8
                        } else {
                            0x40u8
                        }),
                        0x02u8,
                    ] + enc_u16(packet_id->0)
                } else {
                    closed_silently(post, r)
                }
            },
            VariableHeaderV::PubRec { packet_id } => {
                &&& post == pre
                &&& r.close == false
                &&& r.reset_keepalive == true
                &&& r.op is None
                &&& r.reply matches Some(b) && b@ == seq![0x62u8, 0x02u8] + enc_u16(packet_id)
            },
            VariableHeaderV::PubRel { packet_id } => {
                &&& post == pre
                &&& r.close == false
                &&& r.reset_keepalive == true
                &&& r.op is None
                &&& r.reply matches Some(b) && b@ == seq![0x70u8, 0x02u8] + enc_u16(packet_id)
            },
            VariableHeaderV::PubAck { .. } => no_response(pre, post, r),
            VariableHeaderV::PubComp { .. } => no_response(pre, post, r),
            VariableHeaderV::Subscribe { packet_id, tuples } => {
                if pre.client_id is Some {
                    &&& post == pre
                    &&& r.close == false
                    &&& r.reset_keepalive == true
                    &&& r.reply is None
                    &&& r.op matches Some(op) && (op matches BrokerOp::Subscribe {
                        client_id: c,
                        packet_id: pid,
                        topics: ts,
                    } && c@ == pre.client_id->0@ && pid == packet_id && crate::packets::packet::view_tuples(
                        ts@,
                    ) == tuples)
                } else {
                    closed_silently(post, r)
                }
            },
            VariableHeaderV::Unsubscribe { packet_id, tuples } => {
                if pre.client_id is Some {
                    &&& post == pre
                    &&& r.close == false
                    &&& r.reset_keepalive == true
                    &&& r.reply is None
                    &&& r.op matches Some(op) && (op matches BrokerOp::Unsubscribe {
                        client_id: c,
                        packet_id: pid,
                        topics: ts,
                    } && c@ == pre.client_id->0@ && pid == packet_id && crate::packets::packet::view_topics(
                        ts@,
                    ) == tuples)
                } else {
                    closed_silently(post, r)
                }
            },
            VariableHeaderV::PingReq => {
                &&& post == pre
                &&& r.close == false
                &&& r.reset_keepalive == true
                &&& r.op is None
                &&& r.reply matches Some(b) && b@ == seq![0xd0u8, 0x00u8]
            },
            VariableHeaderV::Disconnect => {
                &&& post.state == ConnState::Closed
                &&& r.close == true
                &&& r.reply is None
                &&& match pre.client_id {
                    Some(c) => r.op matches Some(op) && (op matches BrokerOp::Disconnect {
                        client_id: rc,
                    } && rc@ == c@),
                    None => r.op is None,
                }
            },
            _ => closed_silently(post, r),
        },
        ConnState::Closed => {
            &&& r.close == true
            &&& r.reply is None
            &&& r.op is None
        },
    }
}

/// The connection closed without any reply or broker operation.
pub open spec fn closed_silently(post: Connection, r: HandleResult) -> bool {
    &&& post.state == ConnState::Closed
    &&& r.close == true
    &&& r.reply is None
    &&& r.op is None
    &&& r.reset_keepalive == false
}

/// The packet was accepted but earns neither a reply nor an operation.
pub open spec fn no_response(pre: Connection, post: Connection, r: HandleResult) -> bool {
    &&& post == pre
    &&& r.close == false
    &&& r.reset_keepalive == true
    &&& r.reply is None
    &&& r.op is None
}

} // verus!
