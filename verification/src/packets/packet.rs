use vstd::prelude::*;
use vstd::utf8::encode_utf8;

use crate::error::MqttError;
use crate::packets::connack::AcknowledgeFlags;
use crate::packets::connect::{flags_byte, Flags};
use crate::packets::enums::{
    ConnectReturnCode, PacketType, ProtocalVersion, QosLevel, SubackReturnCode,
};
use crate::packets::fixed_header::{header_byte, FixedHeader};
use crate::packets::utils::{
    enc_str, enc_u16, enc_varlen, encode_length, push_bytes, push_string, push_u16, str_fits,
    MAX_REMAINING_LENGTH,
};

verus! {

broadcast use vstd::utf8::encode_utf8_valid_utf8, vstd::utf8::encode_utf8_decode_utf8;

/// The variable header and payload of an MQTT 3.1.1 control packet.
#[derive(Debug)]
pub enum VariableHeader {
    /// A client's request to connect.
    Connect {
        flags: Flags,
        /// Longest idle gap, in seconds, the client promises between packets.
        keepalive: u16,
        client_id: String,
        username: Option<String>,
        password: Option<String>,
        will_topic: Option<String>,
        will_message: Option<String>,
        protocol_version: ProtocalVersion,
    },
    ConnAck { acknowledge_flags: AcknowledgeFlags, return_code: ConnectReturnCode },
    Subscribe { packet_id: u16, tuples: Vec<(String, QosLevel)> },
    Unsubscribe { packet_id: u16, tuples: Vec<String> },
    Publish { topic: String, packet_id: Option<u16>, payload: Vec<u8> },
    SubAck { packet_id: u16, return_codes: Vec<SubackReturnCode> },
    PubAck { packet_id: u16 },
    PubRec { packet_id: u16 },
    PubRel { packet_id: u16 },
    PubComp { packet_id: u16 },
    UnsubAck { packet_id: u16 },
    PingReq,
    PingResp,
    Disconnect,
}

/// The mathematical shape of a variable header: strings as character
/// sequences, payloads as byte sequences.
pub enum VariableHeaderV {
    Connect {
        flags: Flags,
        keepalive: u16,
        client_id: Seq<char>,
        username: Option<Seq<char>>,
        password: Option<Seq<char>>,
        will_topic: Option<Seq<char>>,
        will_message: Option<Seq<char>>,
        protocol_version: ProtocalVersion,
    },
    ConnAck { acknowledge_flags: AcknowledgeFlags, return_code: ConnectReturnCode },
    Subscribe { packet_id: u16, tuples: Seq<(Seq<char>, QosLevel)> },
    Unsubscribe { packet_id: u16, tuples: Seq<Seq<char>> },
    Publish { topic: Seq<char>, packet_id: Option<u16>, payload: Seq<u8> },
    SubAck { packet_id: u16, return_codes: Seq<SubackReturnCode> },
    PubAck { packet_id: u16 },
    PubRec { packet_id: u16 },
    PubRel { packet_id: u16 },
    PubComp { packet_id: u16 },
    UnsubAck { packet_id: u16 },
    PingReq,
    PingResp,
    Disconnect,
}

pub open spec fn view_opt_string(o: Option<String>) -> Option<Seq<char>> {
    match o {
        Some(s) => Some(s@),
        None => None,
    }
}

pub open spec fn view_tuples(t: Seq<(String, QosLevel)>) -> Seq<(Seq<char>, QosLevel)> {
    Seq::new(t.len(), |i: int| (t[i].0@, t[i].1))
}

pub open spec fn view_topics(t: Seq<String>) -> Seq<Seq<char>> {
    Seq::new(t.len(), |i: int| t[i]@)
}

impl View for VariableHeader {
    type V = VariableHeaderV;

    open spec fn view(&self) -> VariableHeaderV {
        match self {
            VariableHeader::Connect {
                flags,
                keepalive,
                client_id,
                username,
                password,
                will_topic,
                will_message,
                protocol_version,
            } => VariableHeaderV::Connect {
                flags: *flags,
                keepalive: *keepalive,
                client_id: client_id@,
                username: view_opt_string(*username),
                password: view_opt_string(*password),
                will_topic: view_opt_string(*will_topic),
                will_message: view_opt_string(*will_message),
                protocol_version: *protocol_version,
            },
            VariableHeader::ConnAck { acknowledge_flags, return_code } => VariableHeaderV::ConnAck {
                acknowledge_flags: *acknowledge_flags,
                return_code: *return_code,
            },
            VariableHeader::Subscribe { packet_id, tuples } => VariableHeaderV::Subscribe {
                packet_id: *packet_id,
                tuples: view_tuples(tuples@),
            },
            VariableHeader::Unsubscribe { packet_id, tuples } => VariableHeaderV::Unsubscribe {
                packet_id: *packet_id,
                tuples: view_topics(tuples@),
            },
            VariableHeader::Publish { topic, packet_id, payload } => VariableHeaderV::Publish {
                topic: topic@,
                packet_id: *packet_id,
                payload: payload@,
            },
            VariableHeader::SubAck { packet_id, return_codes } => VariableHeaderV::SubAck {
                packet_id: *packet_id,
                return_codes: return_codes@,
            },
            VariableHeader::PubAck { packet_id } => VariableHeaderV::PubAck {
                packet_id: *packet_id,
            },
            VariableHeader::PubRec { packet_id } => VariableHeaderV::PubRec {
                packet_id: *packet_id,
            },
            VariableHeader::PubRel { packet_id } => VariableHeaderV::PubRel {
                packet_id: *packet_id,
            },
            VariableHeader::PubComp { packet_id } => VariableHeaderV::PubComp {
                packet_id: *packet_id,
            },
            VariableHeader::UnsubAck { packet_id } => VariableHeaderV::UnsubAck {
                packet_id: *packet_id,
            },
            VariableHeader::PingReq => VariableHeaderV::PingReq,
            VariableHeader::PingResp => VariableHeaderV::PingResp,
            VariableHeader::Disconnect => VariableHeaderV::Disconnect,
        }
    }
}

// ------------------------------------------------------------------
// The wire form of each variable header
// ------------------------------------------------------------------

/// The bytes of SUBSCRIBE tuples: each a topic filter string and a QoS byte.
pub open spec fn enc_tuples(ts: Seq<(Seq<char>, QosLevel)>) -> Seq<u8>
    decreases ts.len(),
{
    if ts.len() == 0 {
        Seq::empty()
    } else {
        enc_str(ts[0].0) + seq![ts[0].1.spec_u8()] + enc_tuples(ts.drop_first())
    }
}

/// The bytes of UNSUBSCRIBE topic filters, back to back.
pub open spec fn enc_topics(ts: Seq<Seq<char>>) -> Seq<u8>
    decreases ts.len(),
{
    if ts.len() == 0 {
        Seq::empty()
    } else {
        enc_str(ts[0]) + enc_topics(ts.drop_first())
    }
}

/// The bytes of SUBACK return codes, one each.
pub open spec fn enc_codes(cs: Seq<SubackReturnCode>) -> Seq<u8>
    decreases cs.len(),
{
    if cs.len() == 0 {
        Seq::empty()
    } else {
        seq![cs[0].spec_u8()] + enc_codes(cs.drop_first())
    }
}

/// The protocol name header of a CONNECT: the string "MQTT" with its length.
pub open spec fn mqtt_name_bytes() -> Seq<u8> {
    seq![0u8, 4u8, 0x4du8, 0x51u8, 0x54u8, 0x54u8]
}

/// The name "MQTT" as characters.
pub open spec fn mqtt_name_chars() -> Seq<char> {
    seq!['M', 'Q', 'T', 'T']
}

/// The bytes of a variable header and payload, without the fixed header.
pub open spec fn spec_body(v: VariableHeaderV) -> Seq<u8> {
    match v {
        VariableHeaderV::Connect {
            flags,
            keepalive,
            client_id,
            username,
            password,
            will_topic,
            will_message,
            protocol_version,
        } => mqtt_name_bytes() + seq![protocol_version.spec_u8(), flags_byte(flags)] + enc_u16(
            keepalive,
        ) + enc_str(client_id) + (if flags.spec_will() {
            (match will_topic {
                Some(wt) => enc_str(wt),
                None => Seq::empty(),
            }) + (match will_message {
                Some(wm) => enc_str(wm),
                None => Seq::empty(),
            })
        } else {
            Seq::empty()
        }) + (if flags.spec_has_username() {
            match username {
                Some(u) => enc_str(u),
                None => Seq::empty(),
            }
        } else {
            Seq::empty()
        }) + (if flags.spec_has_password() {
            match password {
                Some(p) => enc_str(p),
                None => Seq::empty(),
            }
        } else {
            Seq::empty()
        }),
        VariableHeaderV::ConnAck { acknowledge_flags, return_code } => seq![
            acknowledge_flags.byte,
            return_code.spec_u8(),
        ],
        VariableHeaderV::Subscribe { packet_id, tuples } => enc_u16(packet_id) + enc_tuples(tuples),
        VariableHeaderV::Unsubscribe { packet_id, tuples } => enc_u16(packet_id) + enc_topics(
            tuples,
        ),
        VariableHeaderV::Publish { topic, packet_id, payload } => enc_str(topic) + (match packet_id {
            Some(id) => enc_u16(id),
            None => Seq::empty(),
        }) + payload,
        VariableHeaderV::SubAck { packet_id, return_codes } => enc_u16(packet_id) + enc_codes(
            return_codes,
        ),
        VariableHeaderV::PubAck { packet_id } => enc_u16(packet_id),
        VariableHeaderV::PubRec { packet_id } => enc_u16(packet_id),
        VariableHeaderV::PubRel { packet_id } => enc_u16(packet_id),
        VariableHeaderV::PubComp { packet_id } => enc_u16(packet_id),
        VariableHeaderV::UnsubAck { packet_id } => enc_u16(packet_id),
        VariableHeaderV::PingReq => Seq::empty(),
        VariableHeaderV::PingResp => Seq::empty(),
        VariableHeaderV::Disconnect => Seq::empty(),
    }
}

/// The packet type that owns a variable header.
pub open spec fn type_of(v: VariableHeaderV) -> PacketType {
    match v {
        VariableHeaderV::Connect { .. } => PacketType::Connect,
        VariableHeaderV::ConnAck { .. } => PacketType::Connack,
        VariableHeaderV::Subscribe { .. } => PacketType::Subscribe,
        VariableHeaderV::Unsubscribe { .. } => PacketType::Unsubscribe,
        VariableHeaderV::Publish { .. } => PacketType::Publish,
        VariableHeaderV::SubAck { .. } => PacketType::Suback,
        VariableHeaderV::PubAck { .. } => PacketType::Puback,
        VariableHeaderV::PubRec { .. } => PacketType::Pubrec,
        VariableHeaderV::PubRel { .. } => PacketType::Pubrel,
        VariableHeaderV::PubComp { .. } => PacketType::Pubcomp,
        VariableHeaderV::UnsubAck { .. } => PacketType::Unsuback,
        VariableHeaderV::PingReq => PacketType::PingReq,
        VariableHeaderV::PingResp => PacketType::PingResp,
        VariableHeaderV::Disconnect => PacketType::Disconnect,
    }
}

/// Whether every string of a variable header fits its length prefix, so that
/// it can be written to the wire.
pub open spec fn strings_fit(v: VariableHeaderV) -> bool {
    match v {
        VariableHeaderV::Connect {
            client_id,
            username,
            password,
            will_topic,
            will_message,
            flags,
            ..
        } => {
            &&& str_fits(client_id)
            &&& (match username {
                Some(u) => str_fits(u),
                None => true,
            })
            &&& (match password {
                Some(p) => str_fits(p),
                None => true,
            })
            &&& (match will_topic {
                Some(t) => str_fits(t),
                None => true,
            })
            &&& (match will_message {
                Some(m) => str_fits(m),
                None => true,
            })
            &&& flags.will_qos <= 3
        },
        VariableHeaderV::Subscribe { tuples, .. } => forall|i: int|
            0 <= i < tuples.len() ==> str_fits(#[trigger] tuples[i].0),
        VariableHeaderV::Unsubscribe { tuples, .. } => forall|i: int|
            0 <= i < tuples.len() ==> str_fits(#[trigger] tuples[i]),
        VariableHeaderV::Publish { topic, .. } => str_fits(topic),
        _ => true,
    }
}

/// A packet whose bytes the encoder can produce: its strings fit, its body
/// fits a remaining-length field, and its QoS bits are on the wire's range.
pub open spec fn packable(p: PacketV) -> bool {
    &&& strings_fit(p.variable)
    &&& spec_body(p.variable).len() <= MAX_REMAINING_LENGTH
    &&& p.fixed.qos <= 3
}

/// The full wire form of a packet: the fixed header byte, the minimal
/// remaining-length encoding of the body, then the body.
pub open spec fn spec_encode(p: PacketV) -> Seq<u8> {
    seq![p.fixed.spec_byte()] + enc_varlen(spec_body(p.variable).len() as int) + spec_body(
        p.variable,
    )
}

/// A decoded packet: the fixed header and the variable part.
#[derive(Debug)]
pub struct Packet {
    pub fixed: FixedHeader,
    pub variable: VariableHeader,
}

/// The mathematical shape of a packet.
pub struct PacketV {
    pub fixed: FixedHeader,
    pub variable: VariableHeaderV,
}

impl View for Packet {
    type V = PacketV;

    open spec fn view(&self) -> PacketV {
        PacketV { fixed: self.fixed, variable: self.variable@ }
    }
}

// ------------------------------------------------------------------
// Encoding
// ------------------------------------------------------------------

impl VariableHeader {
    /// The bytes of this variable header and payload.
    fn pack_body(&self) -> (r: Vec<u8>)
        requires
            strings_fit(self@),
        ensures
            r@ == spec_body(self@),
    {
        let mut out: Vec<u8> = Vec::new();
        match self {
            VariableHeader::Connect {
                flags,
                keepalive,
                client_id,
                username,
                password,
                will_topic,
                will_message,
                protocol_version,
            } => {
                out.push(0);
                out.push(4);
                out.push(0x4d);
                out.push(0x51);
                out.push(0x54);
                out.push(0x54);
                out.push(protocol_version.to_u8());
                out.push(flags.as_byte());
                proof {
                    assert(out@ =~= mqtt_name_bytes() + seq![
                        protocol_version.spec_u8(),
                        flags_byte(*flags),
                    ]);
                }
                push_u16(&mut out, *keepalive);
                push_string(&mut out, client_id);
                let ghost head = out@;
                if flags.will() {
                    if let Some(wt) = will_topic {
                        push_string(&mut out, wt);
                    }
                    if let Some(wm) = will_message {
                        push_string(&mut out, wm);
                    }
                }
                if flags.has_username() {
                    if let Some(u) = username {
                        push_string(&mut out, u);
                    }
                }
                if flags.has_password() {
                    if let Some(p) = password {
                        push_string(&mut out, p);
                    }
                }
                proof {
                    assert(out@ =~= spec_body(self@));
                }
            },
            VariableHeader::ConnAck { acknowledge_flags, return_code } => {
                out.push(acknowledge_flags.as_byte());
                out.push(return_code.to_u8());
                proof {
                    assert(out@ =~= spec_body(self@));
                }
            },
            VariableHeader::Subscribe { packet_id, tuples } => {
                push_u16(&mut out, *packet_id);
                let ghost head = out@;
                let ghost tv = view_tuples(tuples@);
                proof {
                    assert(self@ matches VariableHeaderV::Subscribe { tuples: t, .. } && t == tv);
                    assert(strings_fit(self@));
                }
                let mut i: usize = 0;
                while i < tuples.len()
                    invariant
                        i <= tuples@.len(),
                        tv == view_tuples(tuples@),
                        forall|k: int| 0 <= k < tv.len() ==> str_fits(#[trigger] tv[k].0),
                        out@ == head + enc_tuples(tv.take(i as int)),
                    decreases tuples@.len() - i,
                {
                    let (topic, qos) = &tuples[i];
                    proof {
                        assert(str_fits(tv[i as int].0));
                        assert(tv[i as int].0 == tuples@[i as int].0@);
                    }
                    push_string(&mut out, topic);
                    out.push(qos.to_u8());
                    proof {
                        lemma_enc_tuples_snoc(tv, i as int);
                        assert(out@ =~= head + enc_tuples(tv.take(i + 1)));
                    }
                    i = i + 1;
                }
                proof {
                    assert(tv.take(tv.len() as int) =~= tv);
                    assert(out@ =~= spec_body(self@));
                }
            },
            VariableHeader::Unsubscribe { packet_id, tuples } => {
                push_u16(&mut out, *packet_id);
                let ghost head = out@;
                let ghost tv = view_topics(tuples@);
                proof {
                    assert(self@ matches VariableHeaderV::Unsubscribe { tuples: t, .. } && t == tv);
                    assert(strings_fit(self@));
                }
                let mut i: usize = 0;
                while i < tuples.len()
                    invariant
                        i <= tuples@.len(),
                        tv == view_topics(tuples@),
                        forall|k: int| 0 <= k < tv.len() ==> str_fits(#[trigger] tv[k]),
                        out@ == head + enc_topics(tv.take(i as int)),
                    decreases tuples@.len() - i,
                {
                    proof {
                        assert(str_fits(tv[i as int]));
                        assert(tv[i as int] == tuples@[i as int]@);
                    }
                    push_string(&mut out, &tuples[i]);
                    proof {
                        lemma_enc_topics_snoc(tv, i as int);
                        assert(out@ =~= head + enc_topics(tv.take(i + 1)));
                    }
                    i = i + 1;
                }
                proof {
                    assert(tv.take(tv.len() as int) =~= tv);
                    assert(out@ =~= spec_body(self@));
                }
            },
            VariableHeader::Publish { topic, packet_id, payload } => {
                push_string(&mut out, topic);
                if let Some(id) = packet_id {
                    push_u16(&mut out, *id);
                }
                push_bytes(&mut out, payload.as_slice());
                proof {
                    assert(out@ =~= spec_body(self@));
                }
            },
            VariableHeader::SubAck { packet_id, return_codes } => {
                push_u16(&mut out, *packet_id);
                let ghost head = out@;
                let ghost cv = return_codes@;
                let mut i: usize = 0;
                while i < return_codes.len()
                    invariant
                        i <= cv.len(),
                        cv == return_codes@,
                        out@ == head + enc_codes(cv.take(i as int)),
                    decreases cv.len() - i,
                {
                    out.push(return_codes[i].to_u8());
                    proof {
                        lemma_enc_codes_snoc(cv, i as int);
                        assert(out@ =~= head + enc_codes(cv.take(i + 1)));
                    }
                    i = i + 1;
                }
                proof {
                    assert(cv.take(cv.len() as int) =~= cv);
                    assert(out@ =~= spec_body(self@));
                }
            },
            VariableHeader::PubAck { packet_id } => {
                push_u16(&mut out, *packet_id);
            },
            VariableHeader::PubRec { packet_id } => {
                push_u16(&mut out, *packet_id);
            },
            VariableHeader::PubRel { packet_id } => {
                push_u16(&mut out, *packet_id);
            },
            VariableHeader::PubComp { packet_id } => {
                push_u16(&mut out, *packet_id);
            },
            VariableHeader::UnsubAck { packet_id } => {
                push_u16(&mut out, *packet_id);
            },
            VariableHeader::PingReq => {},
            VariableHeader::PingResp => {},
            VariableHeader::Disconnect => {},
        }
        out
    }
}

/// Encoding one more tuple extends the encoding of the first `i`.
proof fn lemma_enc_tuples_snoc(ts: Seq<(Seq<char>, QosLevel)>, i: int)
    requires
        0 <= i < ts.len(),
    ensures
        enc_tuples(ts.take(i + 1)) == enc_tuples(ts.take(i)) + enc_str(ts[i].0) + seq![
            ts[i].1.spec_u8(),
        ],
    decreases i,
{
    if i == 0 {
        assert(ts.take(1) =~= seq![ts[0]]);
        assert(ts.take(1).drop_first() =~= Seq::empty());
        assert(ts.take(0) =~= Seq::empty());
        assert(enc_tuples(ts.take(1)) =~= enc_str(ts[0].0) + seq![ts[0].1.spec_u8()]);
        assert(enc_tuples(ts.take(0)) + enc_str(ts[0].0) + seq![ts[0].1.spec_u8()] =~= enc_tuples(
            ts.take(1),
        ));
    } else {
        lemma_enc_tuples_snoc(ts.drop_first(), i - 1);
        assert(ts.take(i + 1).drop_first() =~= ts.drop_first().take(i));
        assert(ts.take(i).drop_first() =~= ts.drop_first().take(i - 1));
        assert(ts.take(i + 1)[0] == ts[0]);
        assert(ts.take(i)[0] == ts[0]);
        assert(ts.drop_first()[i - 1] == ts[i]);
        assert(enc_tuples(ts.take(i + 1)) =~= enc_str(ts[0].0) + seq![ts[0].1.spec_u8()]
            + enc_tuples(ts.drop_first().take(i)));
        assert(enc_tuples(ts.take(i)) =~= enc_str(ts[0].0) + seq![ts[0].1.spec_u8()] + enc_tuples(
            ts.drop_first().take(i - 1),
        ));
        assert(enc_tuples(ts.take(i + 1)) =~= enc_tuples(ts.take(i)) + enc_str(ts[i].0) + seq![
            ts[i].1.spec_u8(),
        ]);
    }
}

/// Encoding one more topic extends the encoding of the first `i`.
proof fn lemma_enc_topics_snoc(ts: Seq<Seq<char>>, i: int)
    requires
        0 <= i < ts.len(),
    ensures
        enc_topics(ts.take(i + 1)) == enc_topics(ts.take(i)) + enc_str(ts[i]),
    decreases i,
{
    if i == 0 {
        assert(ts.take(1) =~= seq![ts[0]]);
        assert(ts.take(1).drop_first() =~= Seq::empty());
        assert(ts.take(0) =~= Seq::empty());
        assert(enc_topics(ts.take(0)) + enc_str(ts[0]) =~= enc_topics(ts.take(1)));
    } else {
        lemma_enc_topics_snoc(ts.drop_first(), i - 1);
        assert(ts.take(i + 1).drop_first() =~= ts.drop_first().take(i));
        assert(ts.take(i).drop_first() =~= ts.drop_first().take(i - 1));
        assert(ts.take(i + 1)[0] == ts[0]);
        assert(ts.take(i)[0] == ts[0]);
        assert(ts.drop_first()[i - 1] == ts[i]);
        assert(enc_topics(ts.take(i + 1)) =~= enc_topics(ts.take(i)) + enc_str(ts[i]));
    }
}

/// Encoding one more return code extends the encoding of the first `i`.
proof fn lemma_enc_codes_snoc(cs: Seq<SubackReturnCode>, i: int)
    requires
        0 <= i < cs.len(),
    ensures
        enc_codes(cs.take(i + 1)) == enc_codes(cs.take(i)) + seq![cs[i].spec_u8()],
    decreases i,
{
    if i == 0 {
        assert(cs.take(1) =~= seq![cs[0]]);
        assert(cs.take(1).drop_first() =~= Seq::empty());
        assert(cs.take(0) =~= Seq::empty());
        assert(enc_codes(cs.take(0)) + seq![cs[0].spec_u8()] =~= enc_codes(cs.take(1)));
    } else {
        lemma_enc_codes_snoc(cs.drop_first(), i - 1);
        assert(cs.take(i + 1).drop_first() =~= cs.drop_first().take(i));
        assert(cs.take(i).drop_first() =~= cs.drop_first().take(i - 1));
        assert(cs.take(i + 1)[0] == cs[0]);
        assert(cs.take(i)[0] == cs[0]);
        assert(cs.drop_first()[i - 1] == cs[i]);
        assert(enc_codes(cs.take(i + 1)) =~= enc_codes(cs.take(i)) + seq![cs[i].spec_u8()]);
    }
}

impl Packet {
    /// A packet from a fixed header and a variable part.
    pub fn new(header: FixedHeader, variable: VariableHeader) -> (r: Self)
        ensures
            r.fixed == header,
            r.variable == variable,
    {
        Packet { fixed: header, variable }
    }

    /// The full wire form: fixed-header byte, minimal remaining length, body.
    pub fn pack(self) -> (r: Vec<u8>)
        requires
            packable(self@),
        ensures
            r@ == spec_encode(self@),
    {
        let mut buffer: Vec<u8> = Vec::new();
        buffer.push(self.fixed.first_byte());
        let body = self.variable.pack_body();
        encode_length(body.len(), &mut buffer);
        push_bytes(&mut buffer, body.as_slice());
        proof {
            assert(buffer@ =~= spec_encode(self@));
        }
        buffer
    }
}


/// One return-code byte per code.
pub proof fn lemma_enc_codes_len(cs: Seq<SubackReturnCode>)
    ensures
        enc_codes(cs).len() == cs.len(),
    decreases cs.len(),
{
    if cs.len() > 0 {
        lemma_enc_codes_len(cs.drop_first());
    }
}

impl Packet {
    /// The wire form of a PUBLISH with the given header flags, topic,
    /// packet identifier and payload.
    pub fn make_publish(
        dup: bool,
        qos: QosLevel,
        retain: bool,
        topic: String,
        packet_id: Option<u16>,
        payload: Vec<u8>,
    ) -> (r: Vec<u8>)
        requires
            str_fits(topic@),
            2 + encode_utf8(topic@).len() + (if packet_id is Some {
                2int
            } else {
                0int
            }) + payload@.len() <= MAX_REMAINING_LENGTH,
        ensures
            r@ == spec_encode(
                PacketV {
                    fixed: FixedHeader {
                        ptype: PacketType::Publish,
                        dup,
                        qos: qos.spec_u8(),
                        retain,
                        remaining_len: 0,
                    },
                    variable: VariableHeaderV::Publish {
                        topic: topic@,
                        packet_id,
                        payload: payload@,
                    },
                },
            ),
    {
        let p = Packet {
            fixed: FixedHeader::new(PacketType::Publish, dup, qos, retain, 0),
            variable: VariableHeader::Publish { topic, packet_id, payload },
        };
        p.pack()
    }

    /// The four bytes of a PUBCOMP: `70 02` and the packet identifier.
    pub fn make_pubcomp(packet_id: u16) -> (r: Vec<u8>)
        ensures
            r@ == seq![0x70u8, 0x02u8] + enc_u16(packet_id),
    {
        let p = Packet {
            fixed: FixedHeader::new(PacketType::Pubcomp, false, QosLevel::AtMost, false, 0),
            variable: VariableHeader::PubComp { packet_id },
        };
        let r = p.pack();
        proof {
            assert(enc_varlen(2) =~= seq![2u8]);
            assert(r@ =~= seq![0x70u8, 0x02u8] + enc_u16(packet_id));
        }
        r
    }

    /// The four bytes of a PUBREL: `62 02` and the packet identifier; its
    /// fixed-header flags are `0010` as MQTT 3.1.1 requires.
    pub fn make_pubrel(packet_id: u16) -> (r: Vec<u8>)
        ensures
            r@ == seq![0x62u8, 0x02u8] + enc_u16(packet_id),
    {
        let p = Packet {
            fixed: FixedHeader::new(PacketType::Pubrel, false, QosLevel::AtLeast, false, 0),
            variable: VariableHeader::PubRel { packet_id },
        };
        let r = p.pack();
        proof {
            assert(enc_varlen(2) =~= seq![2u8]);
            assert(r@ =~= seq![0x62u8, 0x02u8] + enc_u16(packet_id));
        }
        r
    }

    /// The four bytes of a PUBREC: `50 02` and the packet identifier.
    pub fn make_pubrec(packet_id: u16) -> (r: Vec<u8>)
        ensures
            r@ == seq![0x50u8, 0x02u8] + enc_u16(packet_id),
    {
        let p = Packet {
            fixed: FixedHeader::new(PacketType::Pubrec, false, QosLevel::AtMost, false, 0),
            variable: VariableHeader::PubRec { packet_id },
        };
        let r = p.pack();
        proof {
            assert(enc_varlen(2) =~= seq![2u8]);
            assert(r@ =~= seq![0x50u8, 0x02u8] + enc_u16(packet_id));
        }
        r
    }

    /// The four bytes of a PUBACK: `40 02` and the packet identifier.
    pub fn make_puback(packet_id: u16) -> (r: Vec<u8>)
        ensures
            r@ == seq![0x40u8, 0x02u8] + enc_u16(packet_id),
    {
        let p = Packet {
            fixed: FixedHeader::new(PacketType::Puback, false, QosLevel::AtMost, false, 0),
            variable: VariableHeader::PubAck { packet_id },
        };
        let r = p.pack();
        proof {
            assert(enc_varlen(2) =~= seq![2u8]);
            assert(r@ =~= seq![0x40u8, 0x02u8] + enc_u16(packet_id));
        }
        r
    }

    /// The four bytes of an UNSUBACK: `b0 02` and the packet identifier.
    pub fn make_unsuback(packet_id: u16) -> (r: Vec<u8>)
        ensures
            r@ == seq![0xb0u8, 0x02u8] + enc_u16(packet_id),
    {
        let p = Packet {
            fixed: FixedHeader::new(PacketType::Unsuback, false, QosLevel::AtMost, false, 0),
            variable: VariableHeader::UnsubAck { packet_id },
        };
        let r = p.pack();
        proof {
            assert(enc_varlen(2) =~= seq![2u8]);
            assert(r@ =~= seq![0xb0u8, 0x02u8] + enc_u16(packet_id));
        }
        r
    }

    /// The two bytes of a PINGRESP: `d0 00`.
    pub fn make_ping_resp() -> (r: Vec<u8>)
        ensures
            r@ == seq![0xd0u8, 0x00u8],
    {
        let p = Packet {
            fixed: FixedHeader::new(PacketType::PingResp, false, QosLevel::AtMost, false, 0),
            variable: VariableHeader::PingResp,
        };
        let r = p.pack();
        proof {
            assert(enc_varlen(0) =~= seq![0u8]);
            assert(r@ =~= seq![0xd0u8, 0x00u8]);
        }
        r
    }

    /// The wire form of a SUBACK: `90`, the remaining length, the packet
    /// identifier, then one byte per return code.
    pub fn make_suback(packet_id: u16, rc: Vec<SubackReturnCode>) -> (r: Vec<u8>)
        requires
            2 + rc@.len() <= MAX_REMAINING_LENGTH,
        ensures
            r@ == seq![0x90u8] + enc_varlen(2 + rc@.len() as int) + enc_u16(packet_id) + enc_codes(rc@),
    {
        let ghost codes = rc@;
        let p = Packet {
            fixed: FixedHeader::new(PacketType::Suback, false, QosLevel::AtMost, false, 0),
            variable: VariableHeader::SubAck { packet_id, return_codes: rc },
        };
        proof {
            lemma_enc_codes_len(codes);
        }
        let r = p.pack();
        proof {
            assert(r@ =~= seq![0x90u8] + enc_varlen(2 + codes.len() as int) + enc_u16(packet_id)
                + enc_codes(codes));
        }
        r
    }

    /// The four bytes of a CONNACK: `20 02`, the acknowledge flags with the
    /// session-present bit, and the return code.
    pub fn make_connack(rc: ConnectReturnCode, session_present: bool) -> (r: Vec<u8>)
        ensures
            r@ == seq![
                0x20u8,
                0x02u8,
                (if session_present {
                    1u8
                } else {
                    0u8
                }),
                rc.spec_u8(),
            ],
    {
        let p = Packet {
            fixed: FixedHeader::new(PacketType::Connack, false, QosLevel::AtMost, false, 0),
            variable: VariableHeader::ConnAck {
                acknowledge_flags: AcknowledgeFlags::new(session_present),
                return_code: rc,
            },
        };
        let r = p.pack();
        proof {
            assert(enc_varlen(2) =~= seq![2u8]);
            assert(r@ =~= seq![
                0x20u8,
                0x02u8,
                (if session_present {
                    1u8
                } else {
                    0u8
                }),
                rc.spec_u8(),
            ]);
        }
        r
    }
}

} // verus!
