use vstd::prelude::*;
use vstd::utf8::{encode_scalar, encode_utf8, has_width_1_encoding};

use crate::error::MqttError;
use crate::packets::connect::{flags_byte, lemma_flags_byte_roundtrip, spec_flags_from_byte, Flags};
use crate::packets::enums::{PacketType, ProtocalVersion, QosLevel, SubackReturnCode};
use crate::packets::fixed_header::{header_byte, lemma_header_byte_roundtrip, FixedHeader};
use crate::packets::packet::{
    enc_codes, enc_topics, enc_tuples, mqtt_name_bytes, mqtt_name_chars, spec_body, spec_encode,
    strings_fit, type_of, PacketV, VariableHeaderV,
};
use crate::packets::parse::{
    parse_body, parse_codes, parse_connect, parse_opt_string, parse_publish, parse_topics,
    parse_tuples, spec_decode,
};
use crate::packets::utils::{
    enc_str, enc_u16, enc_varlen, lemma_enc_varlen_len, lemma_parse_enc_str, lemma_parse_enc_u16,
    lemma_parse_enc_varlen, parse_string, parse_u16, parse_varlen, str_fits, MAX_REMAINING_LENGTH,
};

verus! {

// ------------------------------------------------------------------
// Which packets are valid
// ------------------------------------------------------------------

/// The protocol's conditions on a variable header, next to the fixed header
/// that carries it.
pub open spec fn valid_variable(fixed: FixedHeader, v: VariableHeaderV) -> bool {
    match v {
        VariableHeaderV::Connect {
            flags,
            client_id,
            username,
            password,
            will_topic,
            will_message,
            protocol_version,
            ..
        } => {
            &&& flags.wf()
            &&& !flags.reserved
            &&& protocol_version == ProtocalVersion::Four
            &&& (will_topic is Some <==> flags.will)
            &&& (will_message is Some <==> flags.will)
            &&& (username is Some <==> flags.username)
            &&& (password is Some <==> flags.password)
            &&& (client_id.len() == 0 ==> flags.clean_session)
        },
        VariableHeaderV::Subscribe { tuples, .. } => {
            &&& tuples.len() >= 1
            &&& fixed.dup == false
            &&& fixed.qos == 1
            &&& fixed.retain == false
        },
        VariableHeaderV::Unsubscribe { tuples, .. } => tuples.len() >= 1,
        VariableHeaderV::Publish { packet_id, .. } => packet_id is Some <==> fixed.qos > 0,
        _ => true,
    }
}

/// A well-formed MQTT 3.1.1 packet: defined QoS bits, a fixed header that
/// agrees with the variable part, strings that fit their length prefixes, and
/// a body that fits a remaining-length field.
pub open spec fn valid_packet(p: PacketV) -> bool {
    &&& p.fixed.wf()
    &&& p.fixed.ptype == type_of(p.variable)
    &&& p.fixed.remaining_len == spec_body(p.variable).len()
    &&& spec_body(p.variable).len() <= MAX_REMAINING_LENGTH
    &&& strings_fit(p.variable)
    &&& valid_variable(p.fixed, p.variable)
}

/// The wire bytes of an optional string: its encoding when present, nothing
/// when absent.
pub open spec fn opt_enc(o: Option<Seq<char>>) -> Seq<u8> {
    match o {
        Some(t) => enc_str(t),
        None => Seq::<u8>::empty(),
    }
}

// ------------------------------------------------------------------
// Helper round-trip lemmas
// ------------------------------------------------------------------

/// The packet-type nibble decodes back to the type, for every type a packet
/// can carry.
proof fn lemma_ptype_roundtrip(t: PacketType)
    requires
        t != PacketType::Auth,
    ensures
        PacketType::spec_from_u8(t.spec_u8()) == Ok::<PacketType, MqttError>(t),
{
}

/// An ASCII character's UTF-8 encoding is its own byte.
proof fn lemma_ascii_scalar(c: char, b: u8)
    requires
        c as u32 == b as u32,
        b <= 0x7F,
    ensures
        encode_scalar(c as u32) == seq![b],
{
    let v = c as u32;
    assert(has_width_1_encoding(v));
    assert(v & 0x7F == v) by (bit_vector)
        requires
            v <= 0x7F,
    ;
    assert(encode_scalar(v) =~= seq![b]);
}

/// The UTF-8 bytes of the protocol name "MQTT".
proof fn lemma_mqtt_name()
    ensures
        encode_utf8(mqtt_name_chars()) == seq![0x4du8, 0x51u8, 0x54u8, 0x54u8],
        enc_str(mqtt_name_chars()) == mqtt_name_bytes(),
        str_fits(mqtt_name_chars()),
{
    let s4 = mqtt_name_chars();
    let s3 = seq!['Q', 'T', 'T'];
    let s2 = seq!['T', 'T'];
    let s1 = seq!['T'];
    let s0 = Seq::<char>::empty();
    assert(s4.drop_first() =~= s3);
    assert(s3.drop_first() =~= s2);
    assert(s2.drop_first() =~= s1);
    assert(s1.drop_first() =~= s0);
    assert(encode_utf8(s0) =~= Seq::<u8>::empty());
    lemma_ascii_scalar('T', 0x54);
    assert(encode_utf8(s1) =~= seq![0x54u8]);
    assert(encode_utf8(s2) =~= seq![0x54u8, 0x54u8]);
    lemma_ascii_scalar('Q', 0x51);
    assert(encode_utf8(s3) =~= seq![0x51u8, 0x54u8, 0x54u8]);
    lemma_ascii_scalar('M', 0x4d);
    assert(encode_utf8(s4) =~= seq![0x4du8, 0x51u8, 0x54u8, 0x54u8]);
    assert(enc_u16(4) =~= seq![0u8, 4u8]);
    assert(enc_str(s4) =~= mqtt_name_bytes());
}

/// Parsing the encoding of SUBSCRIBE tuples that ends the buffer gives the
/// tuples back.
proof fn lemma_parse_enc_tuples(s: Seq<u8>, i: int, ts: Seq<(Seq<char>, QosLevel)>)
    requires
        0 <= i,
        s.len() == i + enc_tuples(ts).len(),
        s.subrange(i, s.len() as int) == enc_tuples(ts),
        forall|k: int| 0 <= k < ts.len() ==> str_fits(#[trigger] ts[k].0),
    ensures
        parse_tuples(s, i) == Ok::<Seq<(Seq<char>, QosLevel)>, MqttError>(ts),
    decreases ts.len(),
{
    if ts.len() == 0 {
        assert(parse_tuples(s, i) == Ok::<Seq<(Seq<char>, QosLevel)>, MqttError>(Seq::empty()));
        assert(ts =~= Seq::<(Seq<char>, QosLevel)>::empty());
    } else {
        let t0 = ts[0].0;
        let q0 = ts[0].1;
        let rest = ts.drop_first();
        let e0 = enc_str(t0);
        let u = s.subrange(i, s.len() as int);
        assert(u =~= e0 + seq![q0.spec_u8()] + enc_tuples(rest));
        let j = i + e0.len();
        assert(s.subrange(i, j) =~= u.subrange(0, e0.len() as int));
        assert(u.subrange(0, e0.len() as int) =~= e0);
        lemma_parse_enc_str(s, i, t0);
        assert(parse_string(s, i) == Ok::<(Seq<char>, int), MqttError>((t0, j)));
        assert(s[j] == u[e0.len() as int]);
        assert(u[e0.len() as int] == q0.spec_u8());
        assert(QosLevel::spec_from_u8(q0.spec_u8()) == Ok::<QosLevel, MqttError>(q0));
        assert(s.subrange(j + 1, s.len() as int) =~= u.subrange(
            e0.len() as int + 1,
            u.len() as int,
        ));
        assert(u.subrange(e0.len() as int + 1, u.len() as int) =~= enc_tuples(rest));
        lemma_parse_enc_tuples(s, j + 1, rest);
        assert(seq![(t0, q0)] + rest =~= ts);
    }
}

/// Parsing the encoding of UNSUBSCRIBE topics that ends the buffer gives the
/// topics back.
proof fn lemma_parse_enc_topics(s: Seq<u8>, i: int, ts: Seq<Seq<char>>)
    requires
        0 <= i,
        s.len() == i + enc_topics(ts).len(),
        s.subrange(i, s.len() as int) == enc_topics(ts),
        forall|k: int| 0 <= k < ts.len() ==> str_fits(#[trigger] ts[k]),
    ensures
        parse_topics(s, i) == Ok::<Seq<Seq<char>>, MqttError>(ts),
    decreases ts.len(),
{
    if ts.len() == 0 {
        assert(parse_topics(s, i) == Ok::<Seq<Seq<char>>, MqttError>(Seq::empty()));
        assert(ts =~= Seq::<Seq<char>>::empty());
    } else {
        let t0 = ts[0];
        let rest = ts.drop_first();
        let e0 = enc_str(t0);
        let u = s.subrange(i, s.len() as int);
        assert(u =~= e0 + enc_topics(rest));
        let j = i + e0.len();
        assert(s.subrange(i, j) =~= u.subrange(0, e0.len() as int));
        assert(u.subrange(0, e0.len() as int) =~= e0);
        lemma_parse_enc_str(s, i, t0);
        assert(s.subrange(j, s.len() as int) =~= u.subrange(e0.len() as int, u.len() as int));
        assert(u.subrange(e0.len() as int, u.len() as int) =~= enc_topics(rest));
        lemma_parse_enc_topics(s, j, rest);
        assert(seq![t0] + rest =~= ts);
    }
}

/// Parsing the encoding of SUBACK codes that ends the buffer gives the codes
/// back.
proof fn lemma_parse_enc_codes(s: Seq<u8>, i: int, cs: Seq<SubackReturnCode>)
    requires
        0 <= i,
        s.len() == i + enc_codes(cs).len(),
        s.subrange(i, s.len() as int) == enc_codes(cs),
    ensures
        parse_codes(s, i) == Ok::<Seq<SubackReturnCode>, MqttError>(cs),
    decreases cs.len(),
{
    if cs.len() == 0 {
        assert(parse_codes(s, i) == Ok::<Seq<SubackReturnCode>, MqttError>(Seq::empty()));
        assert(cs =~= Seq::<SubackReturnCode>::empty());
    } else {
        let c0 = cs[0];
        let rest = cs.drop_first();
        let u = s.subrange(i, s.len() as int);
        assert(u =~= seq![c0.spec_u8()] + enc_codes(rest));
        assert(s[i] == u[0]);
        assert(s[i] == c0.spec_u8());
        assert(SubackReturnCode::spec_from_u8(c0.spec_u8()) == Ok::<SubackReturnCode, MqttError>(
            c0,
        ));
        assert(s.subrange(i + 1, s.len() as int) =~= u.subrange(1, u.len() as int));
        assert(u.subrange(1, u.len() as int) =~= enc_codes(rest));
        lemma_parse_enc_codes(s, i + 1, rest);
        assert(seq![c0] + rest =~= cs);
    }
}

/// Parsing an optional string written at `i` gives it back; absent fields
/// consume nothing.
proof fn lemma_parse_enc_opt_string(s: Seq<u8>, i: int, o: Option<Seq<char>>, present: bool)
    requires
        0 <= i,
        o is Some <==> present,
        present ==> str_fits(o->0),
        present ==> i + enc_str(o->0).len() <= s.len() && s.subrange(i, i + enc_str(o->0).len())
            == enc_str(o->0),
    ensures
        parse_opt_string(present, s, i) == Ok::<(Option<Seq<char>>, int), MqttError>(
            (
                o,
                i + (if present {
                    enc_str(o->0).len() as int
                } else {
                    0int
                }),
            ),
        ),
{
    if present {
        lemma_parse_enc_str(s, i, o->0);
    }
}

// ------------------------------------------------------------------
// The codec round trip
// ------------------------------------------------------------------

/// A big-endian u16 at the front of a buffer parses back, and the rest is
/// what follows it.
proof fn lemma_parse_u16_head(body: Seq<u8>, pid: u16, rest: Seq<u8>)
    requires
        body == enc_u16(pid) + rest,
    ensures
        parse_u16(body, 0) == Ok::<(u16, int), MqttError>((pid, 2)),
        body.subrange(2, body.len() as int) == rest,
{
    assert(body.subrange(0, 2) =~= enc_u16(pid));
    lemma_parse_enc_u16(body, 0, pid);
    assert(body.subrange(2, body.len() as int) =~= rest);
}

/// The fixed-position head of a CONNECT body parses back: protocol name,
/// level, flags byte, keepalive and client identifier.
#[verifier::rlimit(60)]
proof fn lemma_parse_connect_head(
    body: Seq<u8>,
    flags: Flags,
    keepalive: u16,
    client_id: Seq<char>,
    rest: Seq<u8>,
)
    requires
        flags.will_qos <= 3,
        str_fits(client_id),
        body == mqtt_name_bytes() + seq![4u8, flags_byte(flags)] + enc_u16(keepalive) + enc_str(
            client_id,
        ) + rest,
    ensures
        parse_string(body, 0) == Ok::<(Seq<char>, int), MqttError>((mqtt_name_chars(), 6)),
        body.len() == 10 + enc_str(client_id).len() + rest.len(),
        body[6] == 4,
        spec_flags_from_byte(body[7]) == flags,
        parse_u16(body, 8) == Ok::<(u16, int), MqttError>((keepalive, 10)),
        parse_string(body, 10) == Ok::<(Seq<char>, int), MqttError>(
            (client_id, 10 + enc_str(client_id).len() as int),
        ),
        body.subrange(10 + enc_str(client_id).len() as int, body.len() as int) == rest,
{
    lemma_mqtt_name();
    assert(body.subrange(0, 6) =~= enc_str(mqtt_name_chars()));
    lemma_parse_enc_str(body, 0, mqtt_name_chars());
    assert(body[6] == 4);
    assert(body[7] == flags_byte(flags));
    lemma_flags_byte_roundtrip(flags);
    assert(body.subrange(8, 10) =~= enc_u16(keepalive));
    lemma_parse_enc_u16(body, 8, keepalive);
    let i3 = 10 + enc_str(client_id).len() as int;
    assert(body.subrange(10, i3) =~= enc_str(client_id));
    lemma_parse_enc_str(body, 10, client_id);
    assert(body.subrange(i3, body.len() as int) =~= rest);
}

/// The optional trailing strings of a CONNECT body parse back, each present
/// exactly when its flag bit is set.
#[verifier::rlimit(60)]
proof fn lemma_parse_connect_tail(
    body: Seq<u8>,
    i3: int,
    flags: Flags,
    will_topic: Option<Seq<char>>,
    will_message: Option<Seq<char>>,
    username: Option<Seq<char>>,
    password: Option<Seq<char>>,
)
    requires
        0 <= i3 <= body.len(),
        will_topic matches Some(t) ==> str_fits(t),
        will_message matches Some(t) ==> str_fits(t),
        username matches Some(t) ==> str_fits(t),
        password matches Some(t) ==> str_fits(t),
        will_topic is Some <==> flags.will,
        will_message is Some <==> flags.will,
        username is Some <==> flags.username,
        password is Some <==> flags.password,
        body.subrange(i3, body.len() as int) == opt_enc(will_topic) + opt_enc(will_message)
            + opt_enc(username) + opt_enc(password),
    ensures
        ({
            let i4 = i3 + opt_enc(will_topic).len() as int;
            let i5 = i4 + opt_enc(will_message).len() as int;
            let i6 = i5 + opt_enc(username).len() as int;
            let i7 = i6 + opt_enc(password).len() as int;
            &&& parse_opt_string(flags.will, body, i3) == Ok::<
                (Option<Seq<char>>, int),
                MqttError,
            >((will_topic, i4))
            &&& parse_opt_string(flags.will, body, i4) == Ok::<
                (Option<Seq<char>>, int),
                MqttError,
            >((will_message, i5))
            &&& parse_opt_string(flags.username, body, i5) == Ok::<
                (Option<Seq<char>>, int),
                MqttError,
            >((username, i6))
            &&& parse_opt_string(flags.password, body, i6) == Ok::<
                (Option<Seq<char>>, int),
                MqttError,
            >((password, i7))
        }),
{
    let u = body.subrange(i3, body.len() as int);
    let i4 = i3 + opt_enc(will_topic).len() as int;
    let i5 = i4 + opt_enc(will_message).len() as int;
    let i6 = i5 + opt_enc(username).len() as int;
    let i7 = i6 + opt_enc(password).len() as int;
    assert(u.len() == opt_enc(will_topic).len() + opt_enc(will_message).len() + opt_enc(
        username,
    ).len() + opt_enc(password).len());
    assert(i7 == body.len());
    if flags.will {
        assert(body.subrange(i3, i4) =~= u.subrange(0, opt_enc(will_topic).len() as int));
        assert(u.subrange(0, opt_enc(will_topic).len() as int) =~= enc_str(will_topic->0));
        assert(body.subrange(i4, i5) =~= u.subrange(
            i4 - i3,
            i5 - i3,
        ));
        assert(u.subrange(i4 - i3, i5 - i3) =~= enc_str(will_message->0));
    }
    if flags.username {
        assert(body.subrange(i5, i6) =~= u.subrange(i5 - i3, i6 - i3));
        assert(u.subrange(i5 - i3, i6 - i3) =~= enc_str(username->0));
    }
    if flags.password {
        assert(body.subrange(i6, i7) =~= u.subrange(i6 - i3, i7 - i3));
        assert(u.subrange(i6 - i3, i7 - i3) =~= enc_str(password->0));
    }
    lemma_parse_enc_opt_string(body, i3, will_topic, flags.will);
    lemma_parse_enc_opt_string(body, i4, will_message, flags.will);
    lemma_parse_enc_opt_string(body, i5, username, flags.username);
    lemma_parse_enc_opt_string(body, i6, password, flags.password);
}

/// Parsing a CONNECT body laid out field by field gives those fields back.
#[verifier::rlimit(100)]
proof fn lemma_parse_connect_layout(
    body: Seq<u8>,
    flags: Flags,
    keepalive: u16,
    client_id: Seq<char>,
    username: Option<Seq<char>>,
    password: Option<Seq<char>>,
    will_topic: Option<Seq<char>>,
    will_message: Option<Seq<char>>,
)
    requires
        !flags.reserved,
        str_fits(client_id),
        will_topic matches Some(t) ==> str_fits(t),
        will_message matches Some(t) ==> str_fits(t),
        username matches Some(t) ==> str_fits(t),
        password matches Some(t) ==> str_fits(t),
        will_topic is Some <==> flags.will,
        will_message is Some <==> flags.will,
        username is Some <==> flags.username,
        password is Some <==> flags.password,
        client_id.len() == 0 ==> flags.clean_session,
        flags.will_qos <= 3,
        body == mqtt_name_bytes() + seq![4u8, flags_byte(flags)] + enc_u16(keepalive) + enc_str(
            client_id,
        ) + opt_enc(will_topic) + opt_enc(will_message) + opt_enc(username) + opt_enc(password),
    ensures
        parse_connect(body) == Ok::<VariableHeaderV, MqttError>(
            VariableHeaderV::Connect {
                flags,
                keepalive,
                client_id,
                username,
                password,
                will_topic,
                will_message,
                protocol_version: ProtocalVersion::Four,
            },
        ),
{
    let rest = opt_enc(will_topic) + opt_enc(will_message) + opt_enc(username) + opt_enc(password);
    assert(body =~= mqtt_name_bytes() + seq![4u8, flags_byte(flags)] + enc_u16(keepalive)
        + enc_str(client_id) + rest);
    lemma_parse_connect_head(body, flags, keepalive, client_id, rest);
    let i3 = 10 + enc_str(client_id).len() as int;
    lemma_parse_connect_tail(body, i3, flags, will_topic, will_message, username, password);
}

/// Parsing a PUBLISH body laid out field by field gives those fields back.
proof fn lemma_parse_publish_layout(
    fixed: FixedHeader,
    body: Seq<u8>,
    topic: Seq<char>,
    packet_id: Option<u16>,
    payload: Seq<u8>,
)
    requires
        fixed.wf(),
        packet_id is Some <==> fixed.qos > 0,
        str_fits(topic),
        body == enc_str(topic) + (match packet_id {
            Some(id) => enc_u16(id),
            None => Seq::<u8>::empty(),
        }) + payload,
    ensures
        parse_publish(fixed, body) == Ok::<VariableHeaderV, MqttError>(
            VariableHeaderV::Publish { topic, packet_id, payload },
        ),
{
    let i1 = enc_str(topic).len() as int;
    assert(body.subrange(0, i1) =~= enc_str(topic));
    lemma_parse_enc_str(body, 0, topic);
    assert(parse_string(body, 0) == Ok::<(Seq<char>, int), MqttError>((topic, i1)));
    if fixed.qos > 0 {
        let id = packet_id->0;
        assert(body.subrange(i1, i1 + 2) =~= enc_u16(id));
        lemma_parse_enc_u16(body, i1, id);
        assert(body.subrange(i1 + 2, body.len() as int) =~= payload);
    } else {
        assert(packet_id is None);
        assert(body.subrange(i1, body.len() as int) =~= payload);
    }
}

/// The encoded body of a valid CONNECT parses back to it.
#[verifier::rlimit(60)]
proof fn lemma_parse_body_connect(v: VariableHeaderV)
    requires
        v is Connect,
        strings_fit(v),
        valid_variable(
            FixedHeader {
                ptype: PacketType::Connect,
                dup: false,
                qos: 0,
                retain: false,
                remaining_len: 0,
            },
            v,
        ),
    ensures
        parse_connect(spec_body(v)) == Ok::<VariableHeaderV, MqttError>(v),
{
    match v {
        VariableHeaderV::Connect {
            flags,
            keepalive,
            client_id,
            username,
            password,
            will_topic,
            will_message,
            protocol_version,
        } => {
            assert(spec_body(v) =~= mqtt_name_bytes() + seq![4u8, flags_byte(flags)] + enc_u16(
                keepalive,
            ) + enc_str(client_id) + opt_enc(will_topic) + opt_enc(will_message) + opt_enc(
                username,
            ) + opt_enc(password));
            lemma_parse_connect_layout(
                spec_body(v),
                flags,
                keepalive,
                client_id,
                username,
                password,
                will_topic,
                will_message,
            );
        },
        _ => {},
    }
}

/// Parsing the encoded body of a valid packet gives its variable header back.
proof fn lemma_parse_body_of_enc(fixed: FixedHeader, v: VariableHeaderV)
    requires
        fixed.wf(),
        fixed.ptype == type_of(v),
        strings_fit(v),
        valid_variable(fixed, v),
    ensures
        parse_body(fixed, spec_body(v)) == Ok::<VariableHeaderV, MqttError>(v),
{
    let body = spec_body(v);
    match v {
        VariableHeaderV::Connect { .. } => {
            lemma_parse_body_connect(v);
        },
        VariableHeaderV::ConnAck { acknowledge_flags, return_code } => {
            assert(body.len() == 2);
            assert(body[0] == acknowledge_flags.byte);
            assert(body[1] == return_code.spec_u8());
        },
        VariableHeaderV::Publish { topic, packet_id, payload } => {
            lemma_parse_publish_layout(fixed, body, topic, packet_id, payload);
        },
        VariableHeaderV::Subscribe { packet_id, tuples } => {
            lemma_parse_u16_head(body, packet_id, enc_tuples(tuples));
            lemma_parse_enc_tuples(body, 2, tuples);
        },
        VariableHeaderV::Unsubscribe { packet_id, tuples } => {
            lemma_parse_u16_head(body, packet_id, enc_topics(tuples));
            lemma_parse_enc_topics(body, 2, tuples);
        },
        VariableHeaderV::SubAck { packet_id, return_codes } => {
            lemma_parse_u16_head(body, packet_id, enc_codes(return_codes));
            lemma_parse_enc_codes(body, 2, return_codes);
        },
        VariableHeaderV::PubAck { packet_id } => {
            lemma_parse_u16_head(body, packet_id, Seq::<u8>::empty());
        },
        VariableHeaderV::PubRec { packet_id } => {
            lemma_parse_u16_head(body, packet_id, Seq::<u8>::empty());
        },
        VariableHeaderV::PubRel { packet_id } => {
            lemma_parse_u16_head(body, packet_id, Seq::<u8>::empty());
        },
        VariableHeaderV::PubComp { packet_id } => {
            lemma_parse_u16_head(body, packet_id, Seq::<u8>::empty());
        },
        VariableHeaderV::UnsubAck { packet_id } => {
            lemma_parse_u16_head(body, packet_id, Seq::<u8>::empty());
        },
        VariableHeaderV::PingReq => {},
        VariableHeaderV::PingResp => {},
        VariableHeaderV::Disconnect => {},
    }
}

/// Decoding a buffer that holds a header byte, a minimal remaining length and
/// a body whose parse succeeds yields the assembled packet.
proof fn lemma_decode_parts(s: Seq<u8>, fixed: FixedHeader, v: VariableHeaderV, b: Seq<u8>)
    requires
        fixed.wf(),
        fixed.ptype != PacketType::Auth,
        fixed.remaining_len == b.len(),
        b.len() <= MAX_REMAINING_LENGTH,
        s == seq![header_byte(fixed.ptype, fixed.dup, fixed.qos, fixed.retain)] + enc_varlen(
            b.len() as int,
        ) + b,
        parse_body(fixed, b) == Ok::<VariableHeaderV, MqttError>(v),
    ensures
        spec_decode(s) == Ok::<(PacketV, int), MqttError>(
            (PacketV { fixed, variable: v }, s.len() as int),
        ),
{
    let lenc = enc_varlen(b.len() as int);
    let hb = header_byte(fixed.ptype, fixed.dup, fixed.qos, fixed.retain);
    lemma_enc_varlen_len(b.len() as int);
    assert(s[0] == hb);
    lemma_header_byte_roundtrip(fixed.ptype, fixed.dup, fixed.qos, fixed.retain);
    lemma_ptype_roundtrip(fixed.ptype);
    assert(s.subrange(1, 1 + lenc.len() as int) =~= lenc);
    lemma_parse_enc_varlen(s, 1, b.len() as int);
    let j = 1 + lenc.len() as int;
    assert(j + b.len() == s.len());
    let fixed2 = FixedHeader {
        ptype: fixed.ptype,
        dup: (hb / 8) % 2 == 1,
        qos: ((hb / 2) % 4) as u8,
        retain: hb % 2 == 1,
        remaining_len: b.len() as usize,
    };
    assert(fixed2 == fixed);
    assert(s.subrange(j, j + b.len() as int) =~= b);
    assert(spec_decode(s) == Ok::<(PacketV, int), MqttError>(
        (PacketV { fixed, variable: v }, s.len() as int),
    ));
}

/// Codec round trip: decoding the encoding of any valid packet gives the
/// packet back, and reports that exactly the encoding's bytes were consumed.
pub proof fn lemma_codec_round_trip(p: PacketV)
    requires
        valid_packet(p),
    ensures
        spec_decode(spec_encode(p)) == Ok::<(PacketV, int), MqttError>(
            (p, spec_encode(p).len() as int),
        ),
{
    lemma_parse_body_of_enc(p.fixed, p.variable);
    lemma_decode_parts(spec_encode(p), p.fixed, p.variable, spec_body(p.variable));
    assert(PacketV { fixed: p.fixed, variable: p.variable } == p);
}

/// Remaining-length round trip: for every value in the field's range, the
/// minimal encoding is one to four bytes, sized by the documented thresholds,
/// and decoding it gives the value and its exact length back.
pub proof fn lemma_remaining_length_round_trip(n: int)
    requires
        0 <= n <= MAX_REMAINING_LENGTH,
    ensures
        1 <= enc_varlen(n).len() <= 4,
        n < 128 <==> enc_varlen(n).len() == 1,
        128 <= n < 16384 <==> enc_varlen(n).len() == 2,
        16384 <= n < 2097152 <==> enc_varlen(n).len() == 3,
        2097152 <= n <==> enc_varlen(n).len() == 4,
        parse_varlen(enc_varlen(n), 0) == Ok::<(int, int), MqttError>(
            (n, enc_varlen(n).len() as int),
        ),
{
    lemma_enc_varlen_len(n);
    assert(enc_varlen(n).subrange(0, enc_varlen(n).len() as int) =~= enc_varlen(n));
    lemma_parse_enc_varlen(enc_varlen(n), 0, n);
}

} // verus!
